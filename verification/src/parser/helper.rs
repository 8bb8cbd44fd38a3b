//! The shared pieces of the line parsers: schedule lines, dates, weekdays and the
//! nodes that a parsed line yields.
use vstd::prelude::*;
use crate::errors;
use crate::errors::ErrorView;
use crate::parser::{alarm, monthly, reference, time, yearly};
use crate::parser::time::{all_parse, syntax_result, DateSpec};
use crate::text::{
    ascii_lower, ascii_lower_span, chars_of, parse_unsigned, span_eq, span_starts_with,
    spans_text, split_on, split_on_spans, split_ws, split_ws_spans, strip_prefix, trim, trim_span,
};

verus! {

#[derive(PartialEq, Eq, Structural, Clone, Copy)]
pub enum ScheduleType {
    Daily,
    Weekly,
    Monthly,
    Yearly,
    Once,
}

/// The words of a schedule line after its keyword.
pub struct ScheduleLine<'a> {
    parts: Vec<&'a str>,
}

#[derive(Debug, Clone, Copy)]
pub enum Weekday {
    Domingo,
    Lunes,
    Martes,
    Miercoles,
    Jueves,
    Viernes,
    Sabado,
}

#[derive(Debug, Clone, Copy)]
pub enum Ordinal {
    First,
    Second,
    Third,
    Fourth,
    Last,
}

/// A set of weekdays.
#[derive(Debug, Clone, Copy, PartialEq, Eq, Structural)]
pub struct Days {
    domingo: bool,
    lunes: bool,
    martes: bool,
    miercoles: bool,
    jueves: bool,
    viernes: bool,
    sabado: bool,
}

impl View for Days {
    type V = Set<Weekday>;

    closed spec fn view(&self) -> Set<Weekday> {
        Set::new(
            |d: Weekday|
                match d {
                    Weekday::Domingo => self.domingo,
                    Weekday::Lunes => self.lunes,
                    Weekday::Martes => self.martes,
                    Weekday::Miercoles => self.miercoles,
                    Weekday::Jueves => self.jueves,
                    Weekday::Viernes => self.viernes,
                    Weekday::Sabado => self.sabado,
                },
        )
    }
}

/// The texts of string slices.
pub open spec fn str_views(ps: Seq<&str>) -> Seq<Seq<char>> {
    ps.map_values(|p: &str| p@)
}

impl<'a> View for ScheduleLine<'a> {
    type V = Seq<Seq<char>>;

    closed spec fn view(&self) -> Seq<Seq<char>> {
        str_views(self.parts@)
    }
}

/// The date that `D`, `D/M` or `D/M/Y` denotes. Each piece must parse as a `u16`; day and
/// month keep only their low byte (as a cast to `u8` does) and must then lie in `1..=31`
/// and `1..=12`.
pub open spec fn date_spec_of(s: Seq<char>) -> Option<DateSpec> {
    let ps = split_on(s, '/');
    if !all_parse(ps, 65535) {
        None
    } else {
        let d = (parse_unsigned(ps[0], 65535)->0 % 256) as u8;
        if ps.len() == 1 {
            if 1 <= d <= 31 {
                Some(DateSpec { year: 0, month: 0, day: d })
            } else {
                None
            }
        } else if ps.len() == 2 || ps.len() == 3 {
            let m = (parse_unsigned(ps[1], 65535)->0 % 256) as u8;
            if 1 <= d <= 31 && 1 <= m <= 12 {
                if ps.len() == 2 {
                    Some(DateSpec { year: 0, month: m, day: d })
                } else {
                    Some(DateSpec { year: parse_unsigned(ps[2], 65535)->0 as u16, month: m, day: d })
                }
            } else {
                None
            }
        } else {
            None
        }
    }
}

pub fn parse_date_spec(input: &str) -> (r: Result<time::DateSpec, errors::Error>)
    ensures
        syntax_result(r, date_spec_of(input@)),
{
    let v = chars_of(input);
    let spans = split_on_spans(&v, 0, v.len(), '/');
    assert(v@.subrange(0, v@.len() as int) =~= v@);
    let vals = match time::parse_all_spans(&v, &spans, 65535) {
        Some(vals) => vals,
        None => {
            return Err(errors::Error::Syntax);
        },
    };
    proof {
        crate::text::lemma_split_on_nonempty(v@, '/');
    }
    let day = (vals[0] % 256) as u8;
    if vals.len() == 1 {
        if !(1 <= day && day <= 31) {
            return Err(errors::Error::Syntax);
        }
        Ok(time::DateSpec::month_and_year_agnostic(day))
    } else if vals.len() == 2 {
        let month = (vals[1] % 256) as u8;
        if !(1 <= day && day <= 31) || !(1 <= month && month <= 12) {
            return Err(errors::Error::Syntax);
        }
        Ok(time::DateSpec::year_agnostic(day, month))
    } else if vals.len() == 3 {
        let month = (vals[1] % 256) as u8;
        let year = vals[2] as u16;
        if !(1 <= day && day <= 31) || !(1 <= month && month <= 12) {
            return Err(errors::Error::Syntax);
        }
        Ok(time::DateSpec::new(day, month, year))
    } else {
        Err(errors::Error::Syntax)
    }
}

/// The kind of schedule that a (lowercased) first word announces; any other word starts
/// a one-time schedule.
pub open spec fn schedule_kind_of(kw: Seq<char>) -> ScheduleType {
    if kw == "daily"@ || kw == "diario"@ {
        ScheduleType::Daily
    } else if kw == "weekly"@ || kw == "semanal"@ {
        ScheduleType::Weekly
    } else if kw == "monthly"@ || kw == "mensual"@ {
        ScheduleType::Monthly
    } else if kw == "yearly"@ || kw == "anual"@ {
        ScheduleType::Yearly
    } else {
        ScheduleType::Once
    }
}

/// The text after `schedule:` or `date:` at the start of the trimmed line, if any.
pub open spec fn schedule_rest(s: Seq<char>) -> Option<Seq<char>> {
    let t = trim(s);
    match strip_prefix(t, "schedule:"@) {
        Some(r) => Some(r),
        None => strip_prefix(t, "date:"@),
    }
}

/// What `parse_schedule_line` gives: `Some(None)` for a line that is no schedule of the
/// expected kind, `Some(Some(parts))` for one that is, and `None` for a syntax error (a
/// schedule line without words).
pub open spec fn schedule_line_of(s: Seq<char>, expected: ScheduleType) -> Option<
    Option<Seq<Seq<char>>>,
> {
    match schedule_rest(s) {
        None => Some(None),
        Some(r) => {
            let parts = split_ws(trim(r));
            if parts.len() == 0 {
                None
            } else {
                let actual = schedule_kind_of(ascii_lower(parts[0]));
                if actual != expected {
                    Some(None)
                } else if actual == ScheduleType::Once {
                    Some(Some(parts))
                } else {
                    Some(Some(parts.drop_first()))
                }
            }
        },
    }
}

pub open spec fn line_result(
    r: Result<Option<ScheduleLine>, errors::Error>,
    m: Option<Option<Seq<Seq<char>>>>,
) -> bool {
    match m {
        None => r matches Err(e) && e@ == ErrorView::Syntax,
        Some(None) => r matches Ok(None),
        Some(Some(ps)) => r matches Ok(Some(l)) && l@ == ps,
    }
}

fn keyword_kind(kw: &Vec<char>) -> (r: ScheduleType)
    ensures
        r == schedule_kind_of(kw@),
{
    let n = kw.len();
    assert(kw@.subrange(0, n as int) =~= kw@);
    if span_eq(kw, 0, n, "daily") || span_eq(kw, 0, n, "diario") {
        ScheduleType::Daily
    } else if span_eq(kw, 0, n, "weekly") || span_eq(kw, 0, n, "semanal") {
        ScheduleType::Weekly
    } else if span_eq(kw, 0, n, "monthly") || span_eq(kw, 0, n, "mensual") {
        ScheduleType::Monthly
    } else if span_eq(kw, 0, n, "yearly") || span_eq(kw, 0, n, "anual") {
        ScheduleType::Yearly
    } else {
        ScheduleType::Once
    }
}

/// The bounds of the text after `prefix` in `v[lo..hi]`, if it starts with `prefix`.
pub fn strip_prefix_span(v: &Vec<char>, lo: usize, hi: usize, prefix: &str) -> (r: Option<usize>)
    requires
        lo <= hi <= v@.len(),
    ensures
        match strip_prefix(v@.subrange(lo as int, hi as int), prefix@) {
            Some(rest) => r matches Some(k) && lo <= k <= hi && v@.subrange(k as int, hi as int)
                == rest,
            None => r is None,
        },
{
    if span_starts_with(v, lo, hi, prefix) {
        let n = chars_of(prefix).len();
        assert(v@.subrange(lo as int, hi as int).skip(n as int) =~= v@.subrange(lo + n, hi as int));
        Some(lo + n)
    } else {
        None
    }
}

pub fn parse_schedule_line<'a>(input: &'a str, expected: ScheduleType) -> (r: Result<
    Option<ScheduleLine<'a>>,
    errors::Error,
>)
    ensures
        line_result(r, schedule_line_of(input@, expected)),
{
    let v = chars_of(input);
    assert(v@.subrange(0, v@.len() as int) =~= v@);
    let (a, b) = trim_span(&v, 0, v.len());
    let start = match strip_prefix_span(&v, a, b, "schedule:") {
        Some(k) => k,
        None => match strip_prefix_span(&v, a, b, "date:") {
            Some(k) => k,
            None => {
                return Ok(None);
            },
        },
    };
    let (c, d) = trim_span(&v, start, b);
    let spans = split_ws_spans(&v, c, d);
    let ghost ps = spans_text(v@, spans@);
    if spans.len() == 0 {
        return Err(errors::Error::Syntax);
    }
    let (k0, k1) = spans[0];
    assert(ps[0] == v@.subrange(k0 as int, k1 as int));
    let kw = ascii_lower_span(&v, k0, k1);
    let actual = keyword_kind(&kw);
    if actual != expected {
        return Ok(None);
    }
    let first: usize = if actual == ScheduleType::Once {
        0
    } else {
        1
    };
    let mut parts: Vec<&'a str> = Vec::new();
    let mut i: usize = first;
    while i < spans.len()
        invariant
            first <= i <= spans@.len(),
            first <= 1,
            v@ == input@,
            ps == spans_text(v@, spans@),
            crate::text::spans_within(spans@, 0, v@.len() as int),
            str_views(parts@) == ps.subrange(first as int, i as int),
        decreases spans@.len() - i,
    {
        let (x, y) = spans[i];
        let p = input.substring_char(x, y);
        let ghost before = parts@;
        parts.push(p);
        assert(str_views(parts@) =~= ps.subrange(first as int, i + 1)) by {
            assert(ps.len() == spans@.len());
            assert(ps[i as int] == v@.subrange(x as int, y as int));
            assert(parts@ == before.push(p));
            assert(str_views(before).len() == i - first);
            assert(str_views(parts@).len() == i + 1 - first);
            assert forall|j: int| 0 <= j < i + 1 - first implies #[trigger] str_views(parts@)[j]
                == ps.subrange(first as int, i + 1)[j] by {
                assert(str_views(parts@)[j] == parts@[j]@);
                if j < i - first {
                    assert(parts@[j] == before[j]);
                    assert(str_views(before)[j] == before[j]@);
                    assert(str_views(before)[j] == ps.subrange(first as int, i as int)[j]);
                } else {
                    assert(parts@[j] == p);
                }
            }
        }
        i = i + 1;
    }
    let line = ScheduleLine::new(parts);
    assert(ps.subrange(first as int, ps.len() as int) =~= if first == 0 {
        ps
    } else {
        ps.drop_first()
    });
    Ok(Some(line))
}

/// The number of backslashes right before position `i` of `s`.
pub open spec fn backslashes_before(s: Seq<char>, i: int) -> nat
    decreases i,
{
    if 0 < i <= s.len() && s[i - 1] == '\\' {
        1 + backslashes_before(s, i - 1)
    } else {
        0
    }
}

/// Whether position `i` of `s` holds `c` with an even number of backslashes before it.
pub open spec fn unescaped_at(s: Seq<char>, c: char, i: int) -> bool {
    0 <= i < s.len() && s[i] == c && backslashes_before(s, i) % 2 == 0
}

/// The last position below `n` that holds an unescaped `c`.
pub open spec fn last_unescaped_below(s: Seq<char>, c: char, n: int) -> Option<int>
    decreases n,
{
    if n <= 0 {
        None
    } else if unescaped_at(s, c, n - 1) {
        Some(n - 1)
    } else {
        last_unescaped_below(s, c, n - 1)
    }
}

proof fn lemma_last_unescaped_below_range(s: Seq<char>, c: char, n: int)
    ensures
        last_unescaped_below(s, c, n) matches Some(i) ==> 0 <= i < n && unescaped_at(s, c, i),
    decreases n,
{
    if n > 0 {
        lemma_last_unescaped_below_range(s, c, n - 1);
    }
}

/// The last position of `s` that holds an unescaped `c`.
pub open spec fn last_unescaped(s: Seq<char>, c: char) -> Option<int> {
    last_unescaped_below(s, c, s.len() as int)
}

/// The last position of `v[lo..hi]` (counted from `lo`) that holds an unescaped `c`.
pub fn last_unescaped_span(v: &Vec<char>, lo: usize, hi: usize, c: char) -> (r: Option<usize>)
    requires
        lo <= hi <= v@.len(),
    ensures
        match last_unescaped(v@.subrange(lo as int, hi as int), c) {
            Some(i) => r == Some(i as usize) && 0 <= i < hi - lo,
            None => r is None,
        },
{
    let ghost s = v@.subrange(lo as int, hi as int);
    let mut n: usize = hi - lo;
    while n > 0
        invariant
            n <= hi - lo,
            lo <= hi <= v@.len(),
            s == v@.subrange(lo as int, hi as int),
            last_unescaped(s, c) == last_unescaped_below(s, c, n as int),
        decreases n,
    {
        let i = n - 1;
        if v[lo + i] == c {
            let mut j: usize = i;
            let mut cnt: usize = 0;
            while j > 0 && v[lo + j - 1] == '\\'
                invariant
                    j <= i < hi - lo,
                    lo <= hi <= v@.len(),
                    s == v@.subrange(lo as int, hi as int),
                    cnt + backslashes_before(s, j as int) == backslashes_before(s, i as int),
                    cnt <= i - j,
                decreases j,
            {
                assert(s[j - 1] == v@[lo + j - 1]);
                j = j - 1;
                cnt = cnt + 1;
            }
            proof {
                if j > 0 {
                    assert(s[j - 1] == v@[lo + j - 1]);
                }
            }
            assert(s[i as int] == v@[lo + i]);
            if cnt % 2 == 0 {
                proof {
                    lemma_last_unescaped_below_range(s, c, n as int);
                }
                return Some(i);
            }
        } else {
            assert(s[i as int] == v@[lo + i]);
        }
        n = i;
    }
    None
}

/// The byte offset of the last `split_at` in `rest` that has an even number of
/// backslashes right before it.
pub fn find_last_unescaped(rest: &str, split_at: char) -> (r: Option<usize>)
    ensures
        match last_unescaped(rest@, split_at) {
            Some(i) => r == Some(vstd::utf8::encode_utf8(rest@.take(i)).len() as usize),
            None => r is None,
        },
{
    let v = chars_of(rest);
    assert(v@.subrange(0, v@.len() as int) =~= v@);
    match last_unescaped_span(&v, 0, v.len(), split_at) {
        Some(i) => {
            let head = rest.substring_char(0, i);
            assert(head@ =~= rest@.take(i as int));
            Some(head.len())
        },
        None => None,
    }
}

impl<'a> ScheduleLine<'a> {
    pub fn new(parts: Vec<&'a str>) -> (r: Self)
        ensures
            r@ == str_views(parts@),
    {
        Self { parts }
    }

    pub fn parts(&self) -> (r: &[&'a str])
        ensures
            str_views(r@) == self@,
    {
        self.parts.as_slice()
    }
}

/// The weekday that a lowercased Spanish name denotes.
pub open spec fn weekday_named(s: Seq<char>) -> Option<Weekday> {
    if s == "domingo"@ {
        Some(Weekday::Domingo)
    } else if s == "lunes"@ {
        Some(Weekday::Lunes)
    } else if s == "martes"@ {
        Some(Weekday::Martes)
    } else if s == "miércoles"@ || s == "miercoles"@ {
        Some(Weekday::Miercoles)
    } else if s == "jueves"@ {
        Some(Weekday::Jueves)
    } else if s == "viernes"@ {
        Some(Weekday::Viernes)
    } else if s == "sábado"@ || s == "sabado"@ {
        Some(Weekday::Sabado)
    } else {
        None
    }
}

impl Weekday {
    /// The weekday named by `name`, compared in lowercase.
    pub fn new(name: &str) -> (r: Option<Self>)
        ensures
            r == weekday_named(crate::text::lowercase(name@)),
    {
        let lowered = crate::text::to_lowercase(name);
        Self::from_lowercase(lowered.as_str())
    }

    /// The weekday named by an already lowercased `name`.
    pub fn from_lowercase(name: &str) -> (r: Option<Self>)
        ensures
            r == weekday_named(name@),
    {
        let v = chars_of(name);
        let n = v.len();
        assert(v@.subrange(0, n as int) =~= v@);
        if span_eq(&v, 0, n, "domingo") {
            Some(Self::Domingo)
        } else if span_eq(&v, 0, n, "lunes") {
            Some(Self::Lunes)
        } else if span_eq(&v, 0, n, "martes") {
            Some(Self::Martes)
        } else if span_eq(&v, 0, n, "miércoles") || span_eq(&v, 0, n, "miercoles") {
            Some(Self::Miercoles)
        } else if span_eq(&v, 0, n, "jueves") {
            Some(Self::Jueves)
        } else if span_eq(&v, 0, n, "viernes") {
            Some(Self::Viernes)
        } else if span_eq(&v, 0, n, "sábado") || span_eq(&v, 0, n, "sabado") {
            Some(Self::Sabado)
        } else {
            None
        }
    }
}

/// The ordinal that a lowercased Spanish word denotes.
pub open spec fn ordinal_named(s: Seq<char>) -> Option<Ordinal> {
    if s == "primer"@ {
        Some(Ordinal::First)
    } else if s == "segundo"@ {
        Some(Ordinal::Second)
    } else if s == "tercer"@ {
        Some(Ordinal::Third)
    } else if s == "cuarto"@ {
        Some(Ordinal::Fourth)
    } else if s == "último"@ || s == "ultimo"@ {
        Some(Ordinal::Last)
    } else {
        None
    }
}

/// The number of an ordinal; the last is counted as the fourth.
pub open spec fn ordinal_number(o: Ordinal) -> u8 {
    match o {
        Ordinal::First => 1,
        Ordinal::Second => 2,
        Ordinal::Third => 3,
        Ordinal::Fourth => 4,
        Ordinal::Last => 4,
    }
}

impl Ordinal {
    /// The ordinal named by `input`, compared in lowercase.
    pub fn from_str(input: &str) -> (r: Option<Self>)
        ensures
            r == ordinal_named(crate::text::lowercase(input@)),
    {
        let lowered = crate::text::to_lowercase(input);
        Self::from_lowercase(lowered.as_str())
    }

    /// The ordinal named by an already lowercased `input`.
    pub fn from_lowercase(input: &str) -> (r: Option<Self>)
        ensures
            r == ordinal_named(input@),
    {
        let v = chars_of(input);
        let n = v.len();
        assert(v@.subrange(0, n as int) =~= v@);
        if span_eq(&v, 0, n, "primer") {
            Some(Self::First)
        } else if span_eq(&v, 0, n, "segundo") {
            Some(Self::Second)
        } else if span_eq(&v, 0, n, "tercer") {
            Some(Self::Third)
        } else if span_eq(&v, 0, n, "cuarto") {
            Some(Self::Fourth)
        } else if span_eq(&v, 0, n, "último") || span_eq(&v, 0, n, "ultimo") {
            Some(Self::Last)
        } else {
            None
        }
    }
}

impl From<Ordinal> for u8 {
    fn from(value: Ordinal) -> (r: Self)
        ensures
            r == ordinal_number(value),
    {
        match value {
            Ordinal::First => 1,
            Ordinal::Second => 2,
            Ordinal::Third => 3,
            Ordinal::Fourth | Ordinal::Last => 4,
        }
    }
}

impl vstd::std_specs::convert::FromSpecImpl<Ordinal> for u8 {
    open spec fn obeys_from_spec() -> bool {
        true
    }

    open spec fn from_spec(value: Ordinal) -> u8 {
        ordinal_number(value)
    }
}

impl Days {
    pub fn none() -> (r: Self)
        ensures
            r@ == Set::<Weekday>::empty(),
    {
        let r = Self {
            domingo: false,
            lunes: false,
            martes: false,
            miercoles: false,
            jueves: false,
            viernes: false,
            sabado: false,
        };
        assert(r@ =~= Set::<Weekday>::empty());
        r
    }

    pub fn insert(&mut self, day: Weekday)
        ensures
            final(self)@ == old(self)@.insert(day),
    {
        match day {
            Weekday::Domingo => self.domingo = true,
            Weekday::Lunes => self.lunes = true,
            Weekday::Martes => self.martes = true,
            Weekday::Miercoles => self.miercoles = true,
            Weekday::Jueves => self.jueves = true,
            Weekday::Viernes => self.viernes = true,
            Weekday::Sabado => self.sabado = true,
        }
        assert(self@ =~= old(self)@.insert(day));
    }

    pub fn contains(self, day: Weekday) -> (r: bool)
        ensures
            r == self@.contains(day),
    {
        match day {
            Weekday::Domingo => self.domingo,
            Weekday::Lunes => self.lunes,
            Weekday::Martes => self.martes,
            Weekday::Miercoles => self.miercoles,
            Weekday::Jueves => self.jueves,
            Weekday::Viernes => self.viernes,
            Weekday::Sabado => self.sabado,
        }
    }

    /// Two sets of weekdays with the same members are the same value.
    pub proof fn lemma_view_injective(a: Days, b: Days)
        requires
            a@ == b@,
        ensures
            a == b,
    {
        assert(a.domingo == a@.contains(Weekday::Domingo));
        assert(b.domingo == b@.contains(Weekday::Domingo));
        assert(a.lunes == a@.contains(Weekday::Lunes));
        assert(b.lunes == b@.contains(Weekday::Lunes));
        assert(a.martes == a@.contains(Weekday::Martes));
        assert(b.martes == b@.contains(Weekday::Martes));
        assert(a.miercoles == a@.contains(Weekday::Miercoles));
        assert(b.miercoles == b@.contains(Weekday::Miercoles));
        assert(a.jueves == a@.contains(Weekday::Jueves));
        assert(b.jueves == b@.contains(Weekday::Jueves));
        assert(a.viernes == a@.contains(Weekday::Viernes));
        assert(b.viernes == b@.contains(Weekday::Viernes));
        assert(a.sabado == a@.contains(Weekday::Sabado));
        assert(b.sabado == b@.contains(Weekday::Sabado));
    }
}

#[derive(Debug, Clone, Copy)]
pub enum RepeatSpec {
    Never,
    Daily,
    Weekly(Days),
    Monthly(monthly::MonthlyRule),
    Yearly(yearly::YearlyRule),
}

/// The abstract value of a [`RepeatSpec`].
pub enum RepeatView {
    Never,
    Daily,
    Weekly(Set<Weekday>),
    Monthly(monthly::MonthlyRule),
    Yearly(yearly::YearlyRule),
}

impl View for RepeatSpec {
    type V = RepeatView;

    open spec fn view(&self) -> RepeatView {
        match *self {
            RepeatSpec::Never => RepeatView::Never,
            RepeatSpec::Daily => RepeatView::Daily,
            RepeatSpec::Weekly(d) => RepeatView::Weekly(d@),
            RepeatSpec::Monthly(m) => RepeatView::Monthly(m),
            RepeatSpec::Yearly(y) => RepeatView::Yearly(y),
        }
    }
}

#[derive(Debug)]
pub enum Node {
    Reference(reference::Reference),
    Alarm(alarm::Alarm),
    AlarmSchedule(alarm::AlarmSchedule),
}

/// The abstract value of a [`Node`].
pub enum NodeView {
    Reference(Seq<char>),
    Alarm(Seq<char>, alarm::AlarmTypeView),
    AlarmSchedule(alarm::ScheduleView),
}

impl Clone for Node {
    fn clone(&self) -> (r: Self)
        ensures
            r@ == self@,
    {
        match self {
            Node::Reference(x) => Node::Reference(x.clone()),
            Node::Alarm(x) => Node::Alarm(x.clone()),
            Node::AlarmSchedule(x) => Node::AlarmSchedule(*x),
        }
    }
}

impl View for Node {
    type V = NodeView;

    open spec fn view(&self) -> NodeView {
        match self {
            Node::Reference(r) => NodeView::Reference(r@),
            Node::Alarm(a) => NodeView::Alarm(a@.0, a@.1),
            Node::AlarmSchedule(s) => NodeView::AlarmSchedule(s@),
        }
    }
}


/// After inserting a weekday, exactly that weekday is added: it is contained, and every
/// other weekday is contained as before.
pub proof fn lemma_insert_then_contains(days: Set<Weekday>, inserted: Weekday, asked: Weekday)
    ensures
        days.insert(inserted).contains(asked) == (asked == inserted || days.contains(asked)),
{
}

/// A parsed date has a day from 1 to 31 and a month from 0 (not given) to 12; a year is
/// given only together with a month.
pub proof fn lemma_date_in_range(s: Seq<char>)
    ensures
        date_spec_of(s) matches Some(d) ==> 1 <= d.day <= 31 && d.month <= 12 && (d.month == 0
            ==> d.year == 0),
{
}

/// The position that `last_unescaped` gives holds an unescaped occurrence, and no later
/// position does.
pub proof fn lemma_last_unescaped_is_last(s: Seq<char>, c: char)
    ensures
        last_unescaped(s, c) matches Some(i) ==> unescaped_at(s, c, i) && forall|j: int|
            i < j < s.len() ==> !#[trigger] unescaped_at(s, c, j),
        last_unescaped(s, c) is None ==> forall|j: int|
            0 <= j < s.len() ==> !#[trigger] unescaped_at(s, c, j),
{
    lemma_last_below_is_last(s, c, s.len() as int);
}

proof fn lemma_last_below_is_last(s: Seq<char>, c: char, n: int)
    requires
        n <= s.len(),
    ensures
        last_unescaped_below(s, c, n) matches Some(i) ==> 0 <= i < n && unescaped_at(s, c, i)
            && forall|j: int| i < j < n ==> !#[trigger] unescaped_at(s, c, j),
        last_unescaped_below(s, c, n) is None ==> forall|j: int|
            0 <= j < n ==> !#[trigger] unescaped_at(s, c, j),
    decreases n,
{
    if n > 0 {
        lemma_last_below_is_last(s, c, n - 1);
    }
}

} // verus!
