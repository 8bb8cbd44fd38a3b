//! Rendering alarm definitions as systemd user units: one service per alarm, one timer
//! per schedule, and the choice of the unit files that are stale.
use vstd::prelude::*;
use crate::compile;
use crate::compile::{AlarmDefView, ScheduleDefView};
use crate::parser::{alarm, helper, monthly, yearly};
use crate::parser::alarm::{kind_text_of, AlarmTypeView};
use crate::parser::helper::Weekday;
use crate::parser::time::TimeSpec;
use crate::text::{
    ascii_lower_char, chars_of, dec, ends_with, is_ascii_alnum, is_ws, join, pad_zeros,
    push_dec, push_padded, push_str, replace_all, replace_chars, span_ends_with,
    span_starts_with, starts_with, string_of,
};

verus! {

pub struct RenderedUnit {
    pub name: String,
    pub contents: String,
}

pub struct RenderedAlarmUnits {
    pub service: RenderedUnit,
    pub timers: Vec<RenderedUnit>,
}

/// The abstract value of a [`RenderedUnit`].
pub struct UnitView {
    pub name: Seq<char>,
    pub contents: Seq<char>,
}

/// The abstract value of a [`RenderedAlarmUnits`].
pub struct AlarmUnitsView {
    pub service: UnitView,
    pub timers: Seq<UnitView>,
}

impl View for RenderedUnit {
    type V = UnitView;

    open spec fn view(&self) -> UnitView {
        UnitView { name: self.name@, contents: self.contents@ }
    }
}

pub open spec fn unit_views(s: Seq<RenderedUnit>) -> Seq<UnitView> {
    s.map_values(|u: RenderedUnit| u@)
}

impl View for RenderedAlarmUnits {
    type V = AlarmUnitsView;

    open spec fn view(&self) -> AlarmUnitsView {
        AlarmUnitsView { service: self.service@, timers: unit_views(self.timers@) }
    }
}

pub open spec fn alarm_units_views(s: Seq<RenderedAlarmUnits>) -> Seq<AlarmUnitsView> {
    s.map_values(|u: RenderedAlarmUnits| u@)
}

// ----- names -----

/// The slug of a title so far, `out`, continued with the characters `s`: ASCII letters
/// and digits in lowercase, and one `-` for each run of whitespace, `-` and `_`.
pub open spec fn slug_from(s: Seq<char>, out: Seq<char>) -> Seq<char>
    decreases s.len(),
{
    if s.len() == 0 {
        out
    } else {
        let c = s[0];
        let next = if is_ascii_alnum(c) {
            out.push(ascii_lower_char(c))
        } else if (is_ws(c) || c == '-' || c == '_') && !(out.len() > 0 && out.last() == '-') {
            out.push('-')
        } else {
            out
        };
        slug_from(s.drop_first(), next)
    }
}

pub open spec fn trim_dashes_start(s: Seq<char>) -> Seq<char>
    decreases s.len(),
{
    if s.len() > 0 && s[0] == '-' {
        trim_dashes_start(s.drop_first())
    } else {
        s
    }
}

pub open spec fn trim_dashes_end(s: Seq<char>) -> Seq<char>
    decreases s.len(),
{
    if s.len() > 0 && s.last() == '-' {
        trim_dashes_end(s.drop_last())
    } else {
        s
    }
}

/// The slug of a title, without `-` at either end.
pub open spec fn slugify_of(s: Seq<char>) -> Seq<char> {
    trim_dashes_end(trim_dashes_start(slug_from(s, seq![])))
}

/// The slug of a title, or `unnamed` where it is empty.
pub open spec fn normalized_slug_of(s: Seq<char>) -> Seq<char> {
    if slugify_of(s).len() == 0 {
        "unnamed"@
    } else {
        slugify_of(s)
    }
}

proof fn lemma_trim_dashes_start(s: Seq<char>, k: int)
    requires
        0 <= k <= s.len(),
        forall|i: int| 0 <= i < k ==> #[trigger] s[i] == '-',
        k == s.len() || s[k] != '-',
    ensures
        trim_dashes_start(s) == s.skip(k),
    decreases k,
{
    if k == 0 {
        assert(s.skip(0) =~= s);
    } else {
        let t = s.drop_first();
        assert forall|i: int| 0 <= i < k - 1 implies #[trigger] t[i] == '-' by {
            assert(t[i] == s[i + 1]);
        }
        if k < s.len() {
            assert(t[k - 1] == s[k]);
        }
        lemma_trim_dashes_start(t, k - 1);
        assert(t.skip(k - 1) =~= s.skip(k));
    }
}

proof fn lemma_trim_dashes_end(s: Seq<char>, j: int)
    requires
        0 <= j <= s.len(),
        forall|i: int| j <= i < s.len() ==> #[trigger] s[i] == '-',
        j == 0 || s[j - 1] != '-',
    ensures
        trim_dashes_end(s) == s.take(j),
    decreases s.len() - j,
{
    if j == s.len() {
        assert(s.take(j) =~= s);
    } else {
        let t = s.drop_last();
        assert forall|i: int| j <= i < t.len() implies #[trigger] t[i] == '-' by {
            assert(t[i] == s[i]);
        }
        if j > 0 {
            assert(t[j - 1] == s[j - 1]);
        }
        lemma_trim_dashes_end(t, j);
        assert(t.take(j) =~= s.take(j));
    }
}

fn slugify(input: &str) -> (r: String)
    ensures
        r@ == slugify_of(input@),
{
    let v = chars_of(input);
    let mut out: Vec<char> = Vec::new();
    let mut i: usize = 0;
    assert(v@.skip(0) =~= v@);
    while i < v.len()
        invariant
            i <= v@.len(),
            v@ == input@,
            slug_from(v@.skip(i as int), out@) == slug_from(input@, seq![]),
        decreases v@.len() - i,
    {
        let c = v[i];
        assert(v@.skip(i as int)[0] == c);
        assert(v@.skip(i as int).drop_first() =~= v@.skip(i + 1));
        if crate::text::is_ascii_alphanumeric(c) {
            out.push(crate::text::to_ascii_lower_char(c));
        } else {
            let n = out.len();
            let after_dash = n > 0 && out[n - 1] == '-';
            if (crate::text::is_whitespace(c) || c == '-' || c == '_') && !after_dash {
                out.push('-');
            }
        }
        i = i + 1;
    }
    assert(v@.skip(i as int) =~= Seq::<char>::empty());
    let ghost s = out@;
    let mut a: usize = 0;
    while a < out.len() && out[a] == '-'
        invariant
            a <= out@.len(),
            s == out@,
            forall|k: int| 0 <= k < a ==> #[trigger] s[k] == '-',
        decreases out@.len() - a,
    {
        a = a + 1;
    }
    proof {
        lemma_trim_dashes_start(s, a as int);
    }
    let ghost t = s.skip(a as int);
    let mut b: usize = out.len();
    while b > a && out[b - 1] == '-'
        invariant
            a <= b <= out@.len(),
            s == out@,
            t == s.skip(a as int),
            forall|k: int| b - a <= k < t.len() ==> #[trigger] t[k] == '-',
        decreases b - a,
    {
        assert(t[b - 1 - a] == s[b - 1]);
        b = b - 1;
    }
    proof {
        if b > a {
            assert(t[b - 1 - a] == s[b - 1]);
        }
        lemma_trim_dashes_end(t, b - a);
        assert(t.take(b - a) =~= s.subrange(a as int, b as int));
    }
    string_of(&out, a, b)
}

pub fn normalized_slug(title: &str) -> (r: String)
    ensures
        r@ == normalized_slug_of(title@),
{
    let slug = slugify(title);
    if slug.as_str().is_empty() {
        "unnamed".to_string()
    } else {
        slug
    }
}

/// The text quoted for a shell: in single quotes, each `'` written as `'\''`.
pub open spec fn shell_escape_of(s: Seq<char>) -> Seq<char> {
    "'"@ + replace_all(s, "'"@, "'\\''"@) + "'"@
}

pub fn shell_escape(input: &str) -> (r: String)
    ensures
        r@ == shell_escape_of(input@),
{
    let v = chars_of(input);
    proof {
        reveal_strlit("'");
    }
    let replaced = replace_chars(&v, "'", "'\\''");
    let mut s = String::new();
    push_str(&mut s, "'");
    assert(replaced@.subrange(0, replaced@.len() as int) =~= replaced@);
    let middle = string_of(&replaced, 0, replaced.len());
    push_str(&mut s, middle.as_str());
    push_str(&mut s, "'");
    assert(s@ =~= shell_escape_of(input@));
    s
}

/// Whether a unit file name is one that this program manages.
pub open spec fn is_managed_of(name: Seq<char>) -> bool {
    starts_with(name, "alarm-"@) && (ends_with(name, ".timer"@) || ends_with(name, ".service"@))
}

pub fn is_managed_alarm_unit(name: &str) -> (r: bool)
    ensures
        r == is_managed_of(name@),
{
    let v = chars_of(name);
    let n = v.len();
    assert(v@.subrange(0, n as int) =~= v@);
    span_starts_with(&v, 0, n, "alarm-") && (span_ends_with(&v, 0, n, ".timer") || span_ends_with(
        &v,
        0,
        n,
        ".service",
    ))
}


// ----- contents -----

pub open spec fn pad2(n: u8) -> Seq<char> {
    pad_zeros(dec(n as nat), 2)
}

/// `HH:MM:00`.
pub open spec fn hhmm_of(t: TimeSpec) -> Seq<char> {
    pad2(t.hour) + ":"@ + pad2(t.minute) + ":00"@
}

/// The English abbreviation of a weekday.
pub open spec fn weekday_abbrev(w: Weekday) -> Seq<char> {
    match w {
        Weekday::Lunes => "Mon"@,
        Weekday::Martes => "Tue"@,
        Weekday::Miercoles => "Wed"@,
        Weekday::Jueves => "Thu"@,
        Weekday::Viernes => "Fri"@,
        Weekday::Sabado => "Sat"@,
        Weekday::Domingo => "Sun"@,
    }
}

pub open spec fn valid_ordinal(o: u8) -> bool {
    1 <= o <= 4
}

pub open spec fn ordinal_text(o: u8) -> Seq<char> {
    if o == 1 {
        "1"@
    } else if o == 2 {
        "2"@
    } else if o == 3 {
        "3"@
    } else {
        "4"@
    }
}

pub open spec fn if_day(d: Set<Weekday>, w: Weekday) -> Seq<Seq<char>> {
    if d.contains(w) {
        seq![weekday_abbrev(w)]
    } else {
        seq![]
    }
}

/// The abbreviations of the days of a set, from Monday to Sunday.
pub open spec fn day_names(d: Set<Weekday>) -> Seq<Seq<char>> {
    if_day(d, Weekday::Lunes) + if_day(d, Weekday::Martes) + if_day(d, Weekday::Miercoles)
        + if_day(d, Weekday::Jueves) + if_day(d, Weekday::Viernes) + if_day(d, Weekday::Sabado)
        + if_day(d, Weekday::Domingo)
}

/// The `OnCalendar=` value of a schedule.
pub open spec fn on_calendar_of(s: ScheduleDefView) -> Seq<char> {
    match s {
        ScheduleDefView::Once(d, t) => pad_zeros(dec(d.year as nat), 4) + "-"@ + pad2(d.month)
            + "-"@ + pad2(d.day) + " "@ + hhmm_of(t),
        ScheduleDefView::Daily(t) => "*-*-* "@ + hhmm_of(t),
        ScheduleDefView::Weekly(days, t) => {
            let w = join(day_names(days), ","@);
            if w.len() == 0 {
                "*-*-* "@ + hhmm_of(t)
            } else {
                w + " *-*-* "@ + hhmm_of(t)
            }
        },
        ScheduleDefView::Monthly(rule, t) => match rule {
            monthly::MonthlyRule::DayOfMonth(day) => "*-*-"@ + pad2(day) + " "@ + hhmm_of(t),
            monthly::MonthlyRule::NthWeekday(w, o) => weekday_abbrev(w) + " *-*~"@ + ordinal_text(
                o,
            ) + "..* "@ + hhmm_of(t),
        },
        ScheduleDefView::Yearly(rule, t) => match rule {
            yearly::YearlyRule::DayMonth(day, month) => "*-"@ + pad2(month) + "-"@ + pad2(day)
                + " "@ + hhmm_of(t),
            yearly::YearlyRule::NthWeekday(w, o) => weekday_abbrev(w) + " *-*-*~"@ + ordinal_text(
                o,
            ) + " "@ + hhmm_of(t),
        },
    }
}

/// Whether a schedule can be rendered: its ordinal, if any, is one of 1 to 4.
pub open spec fn renderable_schedule(s: ScheduleDefView) -> bool {
    match s {
        ScheduleDefView::Monthly(monthly::MonthlyRule::NthWeekday(_, o), _) => valid_ordinal(o),
        ScheduleDefView::Yearly(yearly::YearlyRule::NthWeekday(_, o), _) => valid_ordinal(o),
        _ => true,
    }
}

pub open spec fn renderable(a: AlarmDefView) -> bool {
    forall|i: int| 0 <= i < a.schedules.len() ==> renderable_schedule(#[trigger] a.schedules[i])
}

fn push_pad2(out: &mut String, n: u8)
    ensures
        final(out)@ == old(out)@ + pad2(n),
{
    push_padded(out, n as u64, 2);
}

fn push_hhmm(out: &mut String, t: TimeSpec)
    ensures
        final(out)@ == old(out)@ + hhmm_of(t),
{
    let ghost start = out@;
    push_pad2(out, t.hour);
    push_str(out, ":");
    push_pad2(out, t.minute);
    push_str(out, ":00");
    assert(out@ =~= start + hhmm_of(t));
}

fn render_weekday(weekday: helper::Weekday) -> (r: &'static str)
    ensures
        r@ == weekday_abbrev(weekday),
{
    match weekday {
        helper::Weekday::Lunes => "Mon",
        helper::Weekday::Martes => "Tue",
        helper::Weekday::Miercoles => "Wed",
        helper::Weekday::Jueves => "Thu",
        helper::Weekday::Viernes => "Fri",
        helper::Weekday::Sabado => "Sat",
        helper::Weekday::Domingo => "Sun",
    }
}

fn render_ordinal(ordinal: u8) -> (r: &'static str)
    requires
        valid_ordinal(ordinal),
    ensures
        r@ == ordinal_text(ordinal),
{
    match ordinal {
        1 => "1",
        2 => "2",
        3 => "3",
        _ => "4",
    }
}

fn push_day(names: &mut Vec<&'static str>, days: helper::Days, w: helper::Weekday)
    ensures
        helper::str_views(final(names)@) == helper::str_views(old(names)@) + if_day(days@, w),
{
    let ghost before = helper::str_views(names@);
    if days.contains(w) {
        let name = render_weekday(w);
        names.push(name);
        assert(helper::str_views(names@) =~= before + seq![name@]);
    } else {
        assert(helper::str_views(names@) =~= before + Seq::<Seq<char>>::empty());
    }
}

fn render_days(days: helper::Days) -> (r: String)
    ensures
        r@ == join(day_names(days@), ","@),
{
    let mut names: Vec<&'static str> = Vec::new();
    assert(helper::str_views(names@) =~= Seq::<Seq<char>>::empty());
    push_day(&mut names, days, helper::Weekday::Lunes);
    push_day(&mut names, days, helper::Weekday::Martes);
    push_day(&mut names, days, helper::Weekday::Miercoles);
    push_day(&mut names, days, helper::Weekday::Jueves);
    push_day(&mut names, days, helper::Weekday::Viernes);
    push_day(&mut names, days, helper::Weekday::Sabado);
    push_day(&mut names, days, helper::Weekday::Domingo);
    assert(helper::str_views(names@) =~= day_names(days@));
    join_strs(&names, ",")
}

fn join_strs(parts: &Vec<&str>, sep: &str) -> (r: String)
    ensures
        r@ == join(helper::str_views(parts@), sep@),
{
    let ghost ps = helper::str_views(parts@);
    let mut out = String::new();
    let mut i: usize = 0;
    assert(ps.take(0) =~= Seq::<Seq<char>>::empty());
    while i < parts.len()
        invariant
            i <= parts@.len(),
            ps == helper::str_views(parts@),
            out@ == join(ps.take(i as int), sep@),
        decreases parts@.len() - i,
    {
        assert(ps[i as int] == parts@[i as int]@);
        assert(ps.take(i + 1).drop_last() =~= ps.take(i as int));
        if i > 0 {
            push_str(&mut out, sep);
        } else {
            assert(out@ =~= Seq::<char>::empty());
        }
        push_str(&mut out, parts[i]);
        i = i + 1;
        assert(out@ =~= join(ps.take(i as int), sep@));
    }
    assert(ps.take(i as int) =~= ps);
    out
}

fn render_on_calendar(schedule: &compile::ScheduleDefinition) -> (r: String)
    requires
        renderable_schedule(schedule@),
    ensures
        r@ == on_calendar_of(schedule@),
{
    let mut s = String::new();
    let ghost e = s@;
    match schedule {
        compile::ScheduleDefinition::Once { at } => {
            let d = at.date();
            let t = at.time();
            push_padded(&mut s, d.year as u64, 4);
            push_str(&mut s, "-");
            push_pad2(&mut s, d.month);
            push_str(&mut s, "-");
            push_pad2(&mut s, d.day);
            push_str(&mut s, " ");
            push_hhmm(&mut s, t);
        },
        compile::ScheduleDefinition::Daily { time } => {
            push_str(&mut s, "*-*-* ");
            push_hhmm(&mut s, *time);
        },
        compile::ScheduleDefinition::Weekly { days, time } => {
            let weekdays = render_days(*days);
            if weekdays.as_str().is_empty() {
                push_str(&mut s, "*-*-* ");
                push_hhmm(&mut s, *time);
            } else {
                push_str(&mut s, weekdays.as_str());
                push_str(&mut s, " *-*-* ");
                push_hhmm(&mut s, *time);
            }
        },
        compile::ScheduleDefinition::Monthly { rule, time } => match rule {
            monthly::MonthlyRule::DayOfMonth(day) => {
                push_str(&mut s, "*-*-");
                push_pad2(&mut s, *day);
                push_str(&mut s, " ");
                push_hhmm(&mut s, *time);
            },
            monthly::MonthlyRule::NthWeekday(weekday, ordinal) => {
                push_str(&mut s, render_weekday(*weekday));
                push_str(&mut s, " *-*~");
                push_str(&mut s, render_ordinal(*ordinal));
                push_str(&mut s, "..* ");
                push_hhmm(&mut s, *time);
            },
        },
        compile::ScheduleDefinition::Yearly { rule, time } => match rule {
            yearly::YearlyRule::DayMonth(day, month) => {
                push_str(&mut s, "*-");
                push_pad2(&mut s, *month);
                push_str(&mut s, "-");
                push_pad2(&mut s, *day);
                push_str(&mut s, " ");
                push_hhmm(&mut s, *time);
            },
            yearly::YearlyRule::NthWeekday(weekday, ordinal) => {
                push_str(&mut s, render_weekday(*weekday));
                push_str(&mut s, " *-*-*~");
                push_str(&mut s, render_ordinal(*ordinal));
                push_str(&mut s, " ");
                push_hhmm(&mut s, *time);
            },
        },
    }
    assert(s@ =~= on_calendar_of(schedule@));
    s
}


/// The contents of the service unit of an alarm.
pub open spec fn service_of(title: Seq<char>, kind: AlarmTypeView, bin_path: Seq<char>) -> Seq<char> {
    "[Unit]\nDescription=Alarm: "@ + title + "\n\n[Service]\nType=oneshot\nExecStart="@ + bin_path
        + " fire --title "@ + shell_escape_of(title) + " --kind "@ + shell_escape_of(
        kind_text_of(kind),
    ) + "\n"@
}

/// The contents of the timer unit of one schedule of an alarm.
pub open spec fn timer_of(title: Seq<char>, unit_base: Seq<char>, s: ScheduleDefView) -> Seq<char> {
    "[Unit]\nDescription=Timer for alarm: "@ + title + "\n\n[Timer]\nUnit="@ + unit_base
        + ".service\nOnCalendar="@ + on_calendar_of(s)
        + "\nPersistent=true\n\n[Install]\nWantedBy=timers.target\n"@
}

/// The common start of the unit names of an alarm.
pub open spec fn unit_base_of(slug: Seq<char>, suffix: Option<Seq<char>>) -> Seq<char> {
    match suffix {
        Some(x) => "alarm-"@ + slug + "-"@ + x,
        None => "alarm-"@ + slug,
    }
}

/// The name of the timer of the schedule with index `i`: numbered from one.
pub open spec fn timer_name_of(base: Seq<char>, i: int) -> Seq<char> {
    base + "-"@ + dec((i + 1) as nat) + ".timer"@
}

/// The units of an alarm.
pub open spec fn units_of(
    a: AlarmDefView,
    bin_path: Seq<char>,
    slug: Seq<char>,
    suffix: Option<Seq<char>>,
) -> AlarmUnitsView {
    let base = unit_base_of(slug, suffix);
    AlarmUnitsView {
        service: UnitView {
            name: base + ".service"@,
            contents: service_of(a.title, a.kind, bin_path),
        },
        timers: Seq::new(
            a.schedules.len(),
            |i: int| UnitView { name: timer_name_of(base, i), contents: timer_of(a.title, base, a.schedules[i]) },
        ),
    }
}

fn render_service(title: &str, kind: &alarm::AlarmType, bin_path: &str) -> (r: String)
    ensures
        r@ == service_of(title@, kind@, bin_path@),
{
    let escaped_title = shell_escape(title);
    let kind_text = kind.kind_text();
    let escaped_kind = shell_escape(kind_text.as_str());
    let mut s = String::new();
    push_str(&mut s, "[Unit]\nDescription=Alarm: ");
    push_str(&mut s, title);
    push_str(&mut s, "\n\n[Service]\nType=oneshot\nExecStart=");
    push_str(&mut s, bin_path);
    push_str(&mut s, " fire --title ");
    push_str(&mut s, escaped_title.as_str());
    push_str(&mut s, " --kind ");
    push_str(&mut s, escaped_kind.as_str());
    push_str(&mut s, "\n");
    assert(s@ =~= service_of(title@, kind@, bin_path@));
    s
}

fn render_timer(title: &str, unit_base: &str, schedule: &compile::ScheduleDefinition) -> (r: String)
    requires
        renderable_schedule(schedule@),
    ensures
        r@ == timer_of(title@, unit_base@, schedule@),
{
    let on_calendar = render_on_calendar(schedule);
    let mut s = String::new();
    push_str(&mut s, "[Unit]\nDescription=Timer for alarm: ");
    push_str(&mut s, title);
    push_str(&mut s, "\n\n[Timer]\nUnit=");
    push_str(&mut s, unit_base);
    push_str(&mut s, ".service\nOnCalendar=");
    push_str(&mut s, on_calendar.as_str());
    push_str(&mut s, "\nPersistent=true\n\n[Install]\nWantedBy=timers.target\n");
    assert(s@ =~= timer_of(title@, unit_base@, schedule@));
    s
}

pub open spec fn option_str(o: Option<&str>) -> Option<Seq<char>> {
    match o {
        Some(s) => Some(s@),
        None => None,
    }
}

fn render_alarm_units(
    alarm: &compile::AlarmDefinition,
    bin_path: &str,
    slug: &str,
    suffix: Option<&str>,
) -> (r: RenderedAlarmUnits)
    requires
        renderable(alarm@),
    ensures
        r@ == units_of(alarm@, bin_path@, slug@, option_str(suffix)),
{
    let mut unit_base = String::new();
    push_str(&mut unit_base, "alarm-");
    push_str(&mut unit_base, slug);
    match suffix {
        Some(x) => {
            push_str(&mut unit_base, "-");
            push_str(&mut unit_base, x);
        },
        None => {},
    }
    let ghost base = unit_base@;
    assert(base =~= unit_base_of(slug@, option_str(suffix)));
    let mut service_name = unit_base.clone();
    push_str(&mut service_name, ".service");
    let service = RenderedUnit {
        name: service_name,
        contents: render_service(alarm.title.as_str(), &alarm.kind, bin_path),
    };
    let ghost av = alarm@;
    let mut timers: Vec<RenderedUnit> = Vec::new();
    let mut idx: usize = 0;
    while idx < alarm.schedules.len()
        invariant
            idx <= alarm.schedules@.len(),
            av == alarm@,
            renderable(av),
            unit_base@ == base,
            base == unit_base_of(slug@, option_str(suffix)),
            unit_views(timers@) == units_of(av, bin_path@, slug@, option_str(suffix)).timers.take(
                idx as int,
            ),
        decreases alarm.schedules@.len() - idx,
    {
        let schedule = &alarm.schedules[idx];
        assert(av.schedules[idx as int] == schedule@);
        assert(renderable_schedule(av.schedules[idx as int]));
        let mut name = unit_base.clone();
        push_str(&mut name, "-");
        push_dec(&mut name, (idx + 1) as u64);
        push_str(&mut name, ".timer");
        assert(name@ =~= timer_name_of(base, idx as int));
        let contents = render_timer(alarm.title.as_str(), unit_base.as_str(), schedule);
        assert(contents@ == timer_of(av.title, base, av.schedules[idx as int]));
        let unit = RenderedUnit { name, contents };
        let ghost before = unit_views(timers@);
        timers.push(unit);
        assert(unit@ == units_of(av, bin_path@, slug@, option_str(suffix)).timers[idx as int]);
        assert(unit_views(timers@) =~= before.push(unit@));
        idx = idx + 1;
        assert(unit_views(timers@) =~= units_of(av, bin_path@, slug@, option_str(suffix)).timers.take(
            idx as int,
        ));
    }
    assert(units_of(av, bin_path@, slug@, option_str(suffix)).timers.take(idx as int) =~= units_of(
        av,
        bin_path@,
        slug@,
        option_str(suffix),
    ).timers);
    RenderedAlarmUnits { service, timers }
}


/// The number of the first `n` slugs that equal `s`.
pub open spec fn slug_count(slugs: Seq<Seq<char>>, s: Seq<char>, n: int) -> nat
    decreases n,
{
    if n <= 0 {
        0
    } else {
        slug_count(slugs, s, n - 1) + if slugs[n - 1] == s {
            1nat
        } else {
            0nat
        }
    }
}

/// The suffix of the unit names of the alarm with index `i`: none where its slug is
/// unique, else `dupK` where it is the K-th alarm with that slug.
pub open spec fn suffix_of(slugs: Seq<Seq<char>>, i: int) -> Option<Seq<char>> {
    if slug_count(slugs, slugs[i], slugs.len() as int) == 1 {
        None
    } else {
        Some("dup"@ + dec(slug_count(slugs, slugs[i], i + 1)))
    }
}

/// The slugs of the titles of the alarms.
pub open spec fn slugs_of(alarms: Seq<AlarmDefView>) -> Seq<Seq<char>> {
    Seq::new(alarms.len(), |i: int| normalized_slug_of(alarms[i].title))
}

/// The units of all alarms.
pub open spec fn rendered_of(alarms: Seq<AlarmDefView>, bin_path: Seq<char>) -> Seq<AlarmUnitsView> {
    Seq::new(
        alarms.len(),
        |i: int| units_of(alarms[i], bin_path, slugs_of(alarms)[i], suffix_of(slugs_of(alarms), i)),
    )
}

fn count_slug(slugs: &Vec<String>, s: &String, n: usize) -> (r: usize)
    requires
        n <= slugs@.len(),
    ensures
        r == slug_count(crate::expand::string_views(slugs@), s@, n as int),
{
    let ghost sv = crate::expand::string_views(slugs@);
    let mut k: usize = 0;
    let mut c: usize = 0;
    while k < n
        invariant
            k <= n <= slugs@.len(),
            sv == crate::expand::string_views(slugs@),
            c == slug_count(sv, s@, k as int),
            c <= k,
        decreases n - k,
    {
        assert(sv[k as int] == slugs@[k as int]@);
        if slugs[k] == *s {
            c = c + 1;
        }
        k = k + 1;
    }
    c
}

pub fn render_alarms(alarms: &[compile::AlarmDefinition], bin_path: &str) -> (r: Vec<
    RenderedAlarmUnits,
>)
    requires
        forall|i: int| 0 <= i < alarms@.len() ==> renderable(#[trigger] alarms@[i]@),
    ensures
        alarm_units_views(r@) == rendered_of(compile::definition_views(alarms@), bin_path@),
{
    let ghost avs = compile::definition_views(alarms@);
    let mut slugs: Vec<String> = Vec::new();
    let mut i: usize = 0;
    while i < alarms.len()
        invariant
            i <= alarms@.len(),
            avs == compile::definition_views(alarms@),
            crate::expand::string_views(slugs@) == slugs_of(avs).take(i as int),
        decreases alarms@.len() - i,
    {
        let slug = normalized_slug(alarms[i].title.as_str());
        let ghost before = crate::expand::string_views(slugs@);
        slugs.push(slug);
        assert(avs[i as int] == alarms@[i as int]@);
        assert(crate::expand::string_views(slugs@) =~= before.push(slug@));
        i = i + 1;
        assert(crate::expand::string_views(slugs@) =~= slugs_of(avs).take(i as int));
    }
    assert(slugs_of(avs).take(i as int) =~= slugs_of(avs));
    let ghost sv = slugs_of(avs);
    let mut rendered: Vec<RenderedAlarmUnits> = Vec::new();
    let mut j: usize = 0;
    while j < alarms.len()
        invariant
            j <= alarms@.len(),
            slugs@.len() == alarms@.len(),
            avs == compile::definition_views(alarms@),
            sv == slugs_of(avs),
            crate::expand::string_views(slugs@) == sv,
            forall|i: int| 0 <= i < alarms@.len() ==> renderable(#[trigger] alarms@[i]@),
            alarm_units_views(rendered@) == rendered_of(avs, bin_path@).take(j as int),
        decreases alarms@.len() - j,
    {
        let slug = &slugs[j];
        assert(sv[j as int] == slug@);
        let total = count_slug(&slugs, slug, slugs.len());
        let suffix = if total == 1 {
            None
        } else {
            let used = count_slug(&slugs, slug, j + 1);
            let mut d = String::new();
            push_str(&mut d, "dup");
            push_dec(&mut d, used as u64);
            assert(d@ =~= "dup"@ + dec(used as nat));
            Some(d)
        };
        let units = match &suffix {
            Some(d) => render_alarm_units(&alarms[j], bin_path, slug.as_str(), Some(d.as_str())),
            None => render_alarm_units(&alarms[j], bin_path, slug.as_str(), None),
        };
        assert(avs[j as int] == alarms@[j as int]@);
        assert(units@ == rendered_of(avs, bin_path@)[j as int]);
        let ghost before = alarm_units_views(rendered@);
        rendered.push(units);
        assert(alarm_units_views(rendered@) =~= before.push(units@));
        j = j + 1;
        assert(alarm_units_views(rendered@) =~= rendered_of(avs, bin_path@).take(j as int));
    }
    assert(rendered_of(avs, bin_path@).take(j as int) =~= rendered_of(avs, bin_path@));
    rendered
}


pub open spec fn timer_names(ts: Seq<UnitView>) -> Seq<Seq<char>> {
    ts.map_values(|u: UnitView| u.name)
}

/// The names of all units that the rendering holds, in order.
pub open spec fn unit_names(rs: Seq<AlarmUnitsView>) -> Seq<Seq<char>>
    decreases rs.len(),
{
    if rs.len() == 0 {
        seq![]
    } else {
        unit_names(rs.drop_last()).push(rs.last().service.name) + timer_names(rs.last().timers)
    }
}

fn desired_unit_names(rendered: &[RenderedAlarmUnits]) -> (r: Vec<String>)
    ensures
        crate::expand::string_views(r@) == unit_names(alarm_units_views(rendered@)),
{
    let ghost rs = alarm_units_views(rendered@);
    let mut names: Vec<String> = Vec::new();
    let mut i: usize = 0;
    assert(rs.take(0) =~= Seq::<AlarmUnitsView>::empty());
    assert(crate::expand::string_views(names@) =~= Seq::<Seq<char>>::empty());
    while i < rendered.len()
        invariant
            i <= rendered@.len(),
            rs == alarm_units_views(rendered@),
            crate::expand::string_views(names@) == unit_names(rs.take(i as int)),
        decreases rendered@.len() - i,
    {
        let units = &rendered[i];
        assert(rs[i as int] == units@);
        assert(rs.take(i + 1).drop_last() =~= rs.take(i as int));
        let ghost before = crate::expand::string_views(names@);
        names.push(units.service.name.clone());
        assert(crate::expand::string_views(names@) =~= before.push(units.service.name@));
        let mut k: usize = 0;
        while k < units.timers.len()
            invariant
                k <= units.timers@.len(),
                rs[i as int] == units@,
                crate::expand::string_views(names@) == before.push(units.service.name@)
                    + timer_names(units@.timers).take(k as int),
            decreases units.timers@.len() - k,
        {
            let ghost mid = crate::expand::string_views(names@);
            names.push(units.timers[k].name.clone());
            assert(units@.timers[k as int] == units.timers@[k as int]@);
            assert(crate::expand::string_views(names@) =~= mid.push(units.timers@[k as int].name@));
            k = k + 1;
            assert(crate::expand::string_views(names@) =~= before.push(units.service.name@)
                + timer_names(units@.timers).take(k as int));
        }
        assert(timer_names(units@.timers).take(k as int) =~= timer_names(units@.timers));
        i = i + 1;
    }
    assert(rs.take(i as int) =~= rs);
    names
}

/// Lexicographic order of texts by code point, which is the order of `String`s (by the
/// bytes of their UTF-8 encoding).
pub open spec fn lex_le(a: Seq<char>, b: Seq<char>) -> bool
    decreases a.len(),
{
    if a.len() == 0 {
        true
    } else if b.len() == 0 {
        false
    } else if a[0] != b[0] {
        (a[0] as u32) < (b[0] as u32)
    } else {
        lex_le(a.drop_first(), b.drop_first())
    }
}

pub open spec fn sorted_texts(s: Seq<Seq<char>>) -> bool {
    forall|i: int, j: int| 0 <= i < j < s.len() ==> lex_le(#[trigger] s[i], #[trigger] s[j])
}

/// `slice::sort` on strings: the same strings, in ascending order.
#[verifier::external_body]
fn sort_strings(v: &mut Vec<String>)
    ensures
        crate::expand::string_views(final(v)@).to_multiset() == crate::expand::string_views(
            old(v)@,
        ).to_multiset(),
        sorted_texts(crate::expand::string_views(final(v)@)),
{
    v.sort();
}

/// A unit file that is stale: managed, not among the desired ones, and of the given
/// kind (a timer, or a service that is not a timer).
pub open spec fn stale_of(desired: Seq<Seq<char>>, n: Seq<char>, timer: bool) -> bool {
    &&& is_managed_of(n)
    &&& !desired.contains(n)
    &&& if timer {
        ends_with(n, ".timer"@)
    } else {
        !ends_with(n, ".timer"@) && ends_with(n, ".service"@)
    }
}

/// The names among `ns` that are stale, in order.
pub open spec fn stale_names(desired: Seq<Seq<char>>, ns: Seq<Seq<char>>, timer: bool) -> Seq<
    Seq<char>,
>
    decreases ns.len(),
{
    if ns.len() == 0 {
        seq![]
    } else {
        let prev = stale_names(desired, ns.drop_last(), timer);
        if stale_of(desired, ns.last(), timer) {
            prev.push(ns.last())
        } else {
            prev
        }
    }
}

fn has_name(names: &Vec<String>, n: &String) -> (r: bool)
    ensures
        r == crate::expand::string_views(names@).contains(n@),
{
    let ghost sv = crate::expand::string_views(names@);
    let mut i: usize = 0;
    while i < names.len()
        invariant
            i <= names@.len(),
            sv == crate::expand::string_views(names@),
            forall|j: int| 0 <= j < i ==> sv[j] != n@,
        decreases names@.len() - i,
    {
        assert(sv[i as int] == names@[i as int]@);
        if names[i] == *n {
            return true;
        }
        i = i + 1;
    }
    false
}

/// The stale timers and the stale services among the unit files `entries`, each list
/// sorted.
pub fn classify_units_in_dir(rendered: &[RenderedAlarmUnits], entries: Vec<&str>) -> (r: (
    Vec<String>,
    Vec<String>,
))
    ensures
        ({
            let desired = unit_names(alarm_units_views(rendered@));
            let es = helper::str_views(entries@);
            &&& crate::expand::string_views(r.0@).to_multiset() == stale_names(
                desired,
                es,
                true,
            ).to_multiset()
            &&& sorted_texts(crate::expand::string_views(r.0@))
            &&& crate::expand::string_views(r.1@).to_multiset() == stale_names(
                desired,
                es,
                false,
            ).to_multiset()
            &&& sorted_texts(crate::expand::string_views(r.1@))
        }),
{
    let desired_list = desired_unit_names(rendered);
    let ghost desired = unit_names(alarm_units_views(rendered@));
    let ghost es = helper::str_views(entries@);
    let mut stale_timers: Vec<String> = Vec::new();
    let mut stale_services: Vec<String> = Vec::new();
    let mut i: usize = 0;
    assert(es.take(0) =~= Seq::<Seq<char>>::empty());
    while i < entries.len()
        invariant
            i <= entries@.len(),
            es == helper::str_views(entries@),
            crate::expand::string_views(desired_list@) == desired,
            crate::expand::string_views(stale_timers@) == stale_names(desired, es.take(i as int), true),
            crate::expand::string_views(stale_services@) == stale_names(
                desired,
                es.take(i as int),
                false,
            ),
        decreases entries@.len() - i,
    {
        let name = entries[i];
        assert(es[i as int] == name@);
        assert(es.take(i + 1).drop_last() =~= es.take(i as int));
        assert(es.take(i + 1).last() == name@);
        let owned = name.to_string();
        let ghost bt = crate::expand::string_views(stale_timers@);
        let ghost bs = crate::expand::string_views(stale_services@);
        if !is_managed_alarm_unit(name) || has_name(&desired_list, &owned) {
        } else {
            let v = chars_of(name);
            let n = v.len();
            assert(v@.subrange(0, n as int) =~= v@);
            if span_ends_with(&v, 0, n, ".timer") {
                stale_timers.push(owned);
                assert(crate::expand::string_views(stale_timers@) =~= bt.push(name@));
            } else if span_ends_with(&v, 0, n, ".service") {
                stale_services.push(owned);
                assert(crate::expand::string_views(stale_services@) =~= bs.push(name@));
            }
        }
        i = i + 1;
    }
    assert(es.take(i as int) =~= es);
    sort_strings(&mut stale_timers);
    sort_strings(&mut stale_services);
    (stale_timers, stale_services)
}


proof fn lemma_slug_count_mono(slugs: Seq<Seq<char>>, s: Seq<char>, m: int, n: int)
    requires
        m <= n,
    ensures
        slug_count(slugs, s, m) <= slug_count(slugs, s, n),
    decreases n - m,
{
    if m < n {
        lemma_slug_count_mono(slugs, s, m, n - 1);
    }
}

proof fn lemma_digit_char_injective(a: nat, b: nat)
    requires
        a < 10,
        b < 10,
        crate::text::digit_char(a) == crate::text::digit_char(b),
    ensures
        a == b,
{
    assert(crate::text::digit_char(a) as u32 == a + 0x30);
    assert(crate::text::digit_char(b) as u32 == b + 0x30);
}

proof fn lemma_dec_injective(a: nat, b: nat)
    requires
        dec(a) == dec(b),
    ensures
        a == b,
    decreases a,
{
    if a < 10 && b < 10 {
        assert(dec(a) == seq![crate::text::digit_char(a)]);
        assert(dec(b) == seq![crate::text::digit_char(b)]);
        assert(dec(a)[0] == crate::text::digit_char(a));
        assert(dec(b)[0] == crate::text::digit_char(b));
        assert(dec(a)[0] == dec(b)[0]);
        lemma_digit_char_injective(a, b);
    } else if a >= 10 && b >= 10 {
        let da = dec(a / 10);
        let db = dec(b / 10);
        assert(dec(a) == da.push(crate::text::digit_char(a % 10)));
        assert(dec(b) == db.push(crate::text::digit_char(b % 10)));
        assert(dec(a).last() == crate::text::digit_char(a % 10));
        assert(dec(b).last() == crate::text::digit_char(b % 10));
        assert(dec(a).last() == dec(b).last());
        lemma_digit_char_injective(a % 10, b % 10);
        assert(dec(a).drop_last() =~= da);
        assert(dec(b).drop_last() =~= db);
        lemma_dec_injective(a / 10, b / 10);
    } else if a < 10 {
        lemma_dec_len_pos(b / 10);
        assert(dec(b).len() >= 2);
    } else {
        lemma_dec_len_pos(a / 10);
        assert(dec(a).len() >= 2);
    }
}

proof fn lemma_dec_len_pos(n: nat)
    ensures
        dec(n).len() >= 1,
    decreases n,
{
    if n >= 10 {
        lemma_dec_len_pos(n / 10);
    }
}

proof fn lemma_cancel_middle(p: Seq<char>, x: Seq<char>, y: Seq<char>, q: Seq<char>)
    requires
        p + x + q == p + y + q,
    ensures
        x == y,
{
    assert((p + x + q).len() == (p + y + q).len());
    assert((p + x).len() == p.len() + x.len());
    assert((p + y).len() == p.len() + y.len());
    assert((p + x + q).len() == p.len() + x.len() + q.len());
    assert((p + y + q).len() == p.len() + y.len() + q.len());
    assert((p + x + q).subrange(p.len() as int, (p.len() + x.len()) as int) =~= x);
    assert((p + y + q).subrange(p.len() as int, (p.len() + y.len()) as int) =~= y);
    assert(x.len() == y.len());
    assert(x =~= y);
}

/// Alarms whose titles give the same slug get service units of different names: both
/// carry a `dup` suffix, numbered in order.
pub proof fn lemma_colliding_slugs_get_distinct_names(
    alarms: Seq<AlarmDefView>,
    bin_path: Seq<char>,
    i: int,
    j: int,
)
    requires
        0 <= i < j < alarms.len(),
        slugs_of(alarms)[i] == slugs_of(alarms)[j],
    ensures
        rendered_of(alarms, bin_path)[i].service.name != rendered_of(alarms, bin_path)[j].service.name,
{
    let slugs = slugs_of(alarms);
    let s = slugs[i];
    let n = slugs.len() as int;
    lemma_slug_count_mono(slugs, s, 0, i);
    lemma_slug_count_mono(slugs, s, i + 1, j);
    lemma_slug_count_mono(slugs, s, j + 1, n);
    assert(slug_count(slugs, s, i + 1) == slug_count(slugs, s, i) + 1);
    assert(slug_count(slugs, s, j + 1) == slug_count(slugs, s, j) + 1);
    let a = slug_count(slugs, s, i + 1);
    let b = slug_count(slugs, s, j + 1);
    assert(a < b);
    assert(suffix_of(slugs, i) == Some("dup"@ + dec(a)));
    assert(suffix_of(slugs, j) == Some("dup"@ + dec(b)));
    let p = "alarm-"@ + s + "-"@;
    let q = ".service"@;
    let ni = rendered_of(alarms, bin_path)[i].service.name;
    let nj = rendered_of(alarms, bin_path)[j].service.name;
    assert(ni == p + ("dup"@ + dec(a)) + q);
    assert(nj == p + ("dup"@ + dec(b)) + q);
    if ni == nj {
        lemma_cancel_middle(p, "dup"@ + dec(a), "dup"@ + dec(b), q);
        assert(("dup"@ + dec(a)).skip("dup"@.len() as int) =~= dec(a));
        assert(("dup"@ + dec(b)).skip("dup"@.len() as int) =~= dec(b));
        lemma_dec_injective(a, b);
    }
}

/// Whether a slug ends in `-dup` and digits, as the unit names of colliding alarms do.
pub open spec fn has_dup_suffix(s: Seq<char>) -> bool {
    exists|x: Seq<char>, d: Seq<char>|
        #![trigger x + "-dup"@ + d]
        s == x + "-dup"@ + d && d.len() > 0 && crate::text::all_digits(d)
}

proof fn lemma_dec_digits(n: nat)
    ensures
        crate::text::all_digits(dec(n)),
        dec(n).len() >= 1,
    decreases n,
{
    lemma_dec_len_pos(n);
    if n >= 10 {
        lemma_dec_digits(n / 10);
        let d = dec(n / 10).push(crate::text::digit_char(n % 10));
        assert(crate::text::digit_char(n % 10) as u32 == n % 10 + 0x30);
        assert forall|i: int| 0 <= i < d.len() implies crate::text::is_digit(#[trigger] d[i]) by {
            if i < d.len() - 1 {
                assert(d[i] == dec(n / 10)[i]);
            }
        }
    } else {
        assert(crate::text::digit_char(n) as u32 == n + 0x30);
        assert(dec(n)[0] == crate::text::digit_char(n));
    }
}

/// A string that ends in a non-digit and then digits splits there in one way only.
proof fn lemma_digit_tail_unique(x: Seq<char>, d1: Seq<char>, y: Seq<char>, d2: Seq<char>)
    requires
        x.len() > 0,
        y.len() > 0,
        !crate::text::is_digit(x.last()),
        !crate::text::is_digit(y.last()),
        crate::text::all_digits(d1),
        crate::text::all_digits(d2),
        x + d1 == y + d2,
    ensures
        d1 == d2,
        x == y,
{
    let t = x + d1;
    assert(t.len() == x.len() + d1.len());
    assert((y + d2).len() == y.len() + d2.len());
    if d1.len() < d2.len() {
        let k = x.len() - 1;
        assert(t[k] == x.last());
        assert(t[k] == (y + d2)[k]);
        assert(k >= y.len());
        assert((y + d2)[k] == d2[k - y.len()]);
    } else if d2.len() < d1.len() {
        let k = y.len() - 1;
        assert((y + d2)[k] == y.last());
        assert(k >= x.len());
        assert(t[k] == d1[k - x.len()]);
    }
    assert(x.len() == y.len());
    assert(x =~= t.subrange(0, x.len() as int));
    assert(y =~= (y + d2).subrange(0, y.len() as int));
    assert(d1 =~= t.subrange(x.len() as int, t.len() as int));
    assert(d2 =~= (y + d2).subrange(y.len() as int, t.len() as int));
}

proof fn lemma_cancel_suffix(x: Seq<char>, y: Seq<char>, q: Seq<char>)
    requires
        x + q == y + q,
    ensures
        x == y,
{
    assert((x + q).len() == x.len() + q.len());
    assert((y + q).len() == y.len() + q.len());
    assert(x =~= (x + q).subrange(0, x.len() as int));
    assert(y =~= (y + q).subrange(0, y.len() as int));
}

proof fn lemma_cancel_prefix(p: Seq<char>, x: Seq<char>, y: Seq<char>)
    requires
        p + x == p + y,
    ensures
        x == y,
{
    assert(x =~= (p + x).skip(p.len() as int));
    assert(y =~= (p + y).skip(p.len() as int));
}

/// Two alarms never share the common start of their unit names, unless a slug itself
/// ends in `-dup` and digits.
proof fn lemma_unit_bases_distinct(alarms: Seq<AlarmDefView>, i: int, j: int)
    requires
        0 <= i < alarms.len(),
        0 <= j < alarms.len(),
        i != j,
        forall|k: int| 0 <= k < alarms.len() ==> !has_dup_suffix(#[trigger] slugs_of(alarms)[k]),
    ensures
        unit_base_of(slugs_of(alarms)[i], suffix_of(slugs_of(alarms), i)) != unit_base_of(
            slugs_of(alarms)[j],
            suffix_of(slugs_of(alarms), j),
        ),
{
    reveal_strlit("-dup");
    reveal_strlit("-");
    reveal_strlit("dup");
    let slugs = slugs_of(alarms);
    let si = slugs[i];
    let sj = slugs[j];
    let bi = unit_base_of(si, suffix_of(slugs, i));
    let bj = unit_base_of(sj, suffix_of(slugs, j));
    let pre = "alarm-"@;
    if bi == bj {
        match (suffix_of(slugs, i), suffix_of(slugs, j)) {
            (None, None) => {
                lemma_cancel_prefix(pre, si, sj);
                // the same slug twice is counted twice
                let (lo, hi) = if i < j { (i, j) } else { (j, i) };
                lemma_slug_count_mono(slugs, si, 0, lo);
                lemma_slug_count_mono(slugs, si, lo + 1, hi);
                lemma_slug_count_mono(slugs, si, hi + 1, slugs.len() as int);
                assert(slug_count(slugs, si, lo + 1) == slug_count(slugs, si, lo) + 1);
                assert(slug_count(slugs, si, hi + 1) == slug_count(slugs, si, hi) + 1);
            },
            (Some(xi), Some(xj)) => {
                let a = slug_count(slugs, si, i + 1);
                let b = slug_count(slugs, sj, j + 1);
                lemma_dec_digits(a);
                lemma_dec_digits(b);
                let pi = pre + si + "-dup"@;
                let pj = pre + sj + "-dup"@;
                assert(bi =~= pi + dec(a));
                assert(bj =~= pj + dec(b));
                assert(pi.last() == 'p');
                assert(pj.last() == 'p');
                lemma_digit_tail_unique(pi, dec(a), pj, dec(b));
                lemma_cancel_suffix(pre + si, pre + sj, "-dup"@);
                lemma_cancel_prefix(pre, si, sj);
                lemma_dec_injective(a, b);
                let (lo, hi) = if i < j { (i, j) } else { (j, i) };
                lemma_slug_count_mono(slugs, si, lo + 1, hi);
                assert(slug_count(slugs, si, hi + 1) == slug_count(slugs, si, hi) + 1);
            },
            (Some(xi), None) => {
                let a = slug_count(slugs, si, i + 1);
                lemma_dec_digits(a);
                assert(bi =~= pre + (si + "-dup"@ + dec(a)));
                lemma_cancel_prefix(pre, si + "-dup"@ + dec(a), sj);
                assert(has_dup_suffix(slugs[j]));
            },
            (None, Some(xj)) => {
                let b = slug_count(slugs, sj, j + 1);
                lemma_dec_digits(b);
                assert(bj =~= pre + (sj + "-dup"@ + dec(b)));
                lemma_cancel_prefix(pre, si, sj + "-dup"@ + dec(b));
                assert(has_dup_suffix(slugs[i]));
            },
        }
    }
}

/// When no slug ends in `-dup` and digits, every unit of the rendering has a name of its
/// own: no two services, no two timers, and no service and timer share a name.
pub proof fn lemma_unit_names_distinct(alarms: Seq<AlarmDefView>, bin_path: Seq<char>)
    requires
        forall|k: int| 0 <= k < alarms.len() ==> !has_dup_suffix(#[trigger] slugs_of(alarms)[k]),
    ensures
        ({
            let r = rendered_of(alarms, bin_path);
            &&& forall|i: int, j: int|
                0 <= i < r.len() && 0 <= j < r.len() && i != j ==> (#[trigger] r[i].service.name)
                    != (#[trigger] r[j].service.name)
            &&& forall|i: int, p: int, j: int, q: int|
                0 <= i < r.len() && 0 <= j < r.len() && 0 <= p < r[i].timers.len() && 0 <= q
                    < r[j].timers.len() && (i != j || p != q) ==> (#[trigger] r[i].timers[p].name)
                    != (#[trigger] r[j].timers[q].name)
            &&& forall|i: int, j: int, q: int|
                0 <= i < r.len() && 0 <= j < r.len() && 0 <= q < r[j].timers.len() ==> (
                #[trigger] r[i].service.name) != (#[trigger] r[j].timers[q].name)
        }),
{
    reveal_strlit(".service");
    reveal_strlit(".timer");
    reveal_strlit("-");
    let r = rendered_of(alarms, bin_path);
    let slugs = slugs_of(alarms);
    assert forall|i: int, j: int|
        0 <= i < r.len() && 0 <= j < r.len() && i != j implies (#[trigger] r[i].service.name)
        != (#[trigger] r[j].service.name) by {
        lemma_unit_bases_distinct(alarms, i, j);
        let bi = unit_base_of(slugs[i], suffix_of(slugs, i));
        let bj = unit_base_of(slugs[j], suffix_of(slugs, j));
        if bi + ".service"@ == bj + ".service"@ {
            lemma_cancel_suffix(bi, bj, ".service"@);
        }
    }
    assert forall|i: int, p: int, j: int, q: int|
        0 <= i < r.len() && 0 <= j < r.len() && 0 <= p < r[i].timers.len() && 0 <= q
            < r[j].timers.len() && (i != j || p != q) implies (#[trigger] r[i].timers[p].name)
        != (#[trigger] r[j].timers[q].name) by {
        let bi = unit_base_of(slugs[i], suffix_of(slugs, i));
        let bj = unit_base_of(slugs[j], suffix_of(slugs, j));
        let ni = r[i].timers[p].name;
        let nj = r[j].timers[q].name;
        assert(ni == timer_name_of(bi, p));
        assert(nj == timer_name_of(bj, q));
        if ni == nj {
            let xi = bi + "-"@;
            let xj = bj + "-"@;
            assert(ni =~= xi + dec((p + 1) as nat) + ".timer"@);
            assert(nj =~= xj + dec((q + 1) as nat) + ".timer"@);
            lemma_cancel_suffix(xi + dec((p + 1) as nat), xj + dec((q + 1) as nat), ".timer"@);
            lemma_dec_digits((p + 1) as nat);
            lemma_dec_digits((q + 1) as nat);
            assert(xi.last() == '-');
            assert(xj.last() == '-');
            lemma_digit_tail_unique(xi, dec((p + 1) as nat), xj, dec((q + 1) as nat));
            lemma_cancel_suffix(bi, bj, "-"@);
            if i != j {
                lemma_unit_bases_distinct(alarms, i, j);
            } else {
                lemma_dec_injective((p + 1) as nat, (q + 1) as nat);
            }
        }
    }
    assert forall|i: int, j: int, q: int|
        0 <= i < r.len() && 0 <= j < r.len() && 0 <= q < r[j].timers.len() implies (
        #[trigger] r[i].service.name) != (#[trigger] r[j].timers[q].name) by {
        let bi = unit_base_of(slugs[i], suffix_of(slugs, i));
        let bj = unit_base_of(slugs[j], suffix_of(slugs, j));
        let si = r[i].service.name;
        let tj = r[j].timers[q].name;
        assert(si == bi + ".service"@);
        assert(tj =~= (bj + "-"@ + dec((q + 1) as nat)) + ".timer"@);
        assert(si.last() == 'e');
        assert(tj.last() == 'r');
    }
}

proof fn lemma_stale_names_are_stale(desired: Seq<Seq<char>>, es: Seq<Seq<char>>, timer: bool, n: Seq<char>)
    ensures
        stale_names(desired, es, timer).contains(n) ==> stale_of(desired, n, timer),
    decreases es.len(),
{
    if es.len() > 0 {
        lemma_stale_names_are_stale(desired, es.drop_last(), timer, n);
        let prev = stale_names(desired, es.drop_last(), timer);
        if stale_names(desired, es, timer).contains(n) && stale_of(desired, es.last(), timer) {
            let k = choose|k: int| 0 <= k < prev.push(es.last()).len() && prev.push(es.last())[k] == n;
            if k < prev.len() {
                assert(prev[k] == n);
            }
        }
    }
}

/// The units that classifying finds stale are managed units that the rendering does
/// not hold: timers in the first list, services in the second.
pub proof fn lemma_stale_units_are_managed_and_undesired(
    found: Seq<Seq<char>>,
    desired: Seq<Seq<char>>,
    entries: Seq<Seq<char>>,
    timer: bool,
)
    requires
        found.to_multiset() == stale_names(desired, entries, timer).to_multiset(),
    ensures
        forall|k: int| 0 <= k < found.len() ==> stale_of(desired, #[trigger] found[k], timer),
{
    broadcast use vstd::seq_lib::group_to_multiset_ensures;

    assert forall|k: int| 0 <= k < found.len() implies stale_of(desired, #[trigger] found[k], timer) by {
        assert(found.contains(found[k]));
        assert(found.to_multiset().count(found[k]) > 0);
        assert(stale_names(desired, entries, timer).contains(found[k]));
        lemma_stale_names_are_stale(desired, entries, timer, found[k]);
    }
}

pub open spec fn shell_quoted(s: Seq<char>) -> bool {
    s.len() >= 2 && s[0] == '\'' && s.last() == '\''
}

/// An escaped text is enclosed in single quotes.
pub proof fn lemma_shell_escape_quoted(t: Seq<char>)
    ensures
        shell_quoted(shell_escape_of(t)),
{
    reveal_strlit("'");
    let m = replace_all(t, "'"@, "'\\''"@);
    assert(shell_escape_of(t) == "'"@ + m + "'"@);
    assert(("'"@ + m + "'"@)[0] == '\'');
    assert(("'"@ + m + "'"@).last() == '\'');
}


/// A character that a slug may hold: an ASCII digit, a lowercase ASCII letter, or `-`.
pub open spec fn slug_char(c: char) -> bool {
    let u = c as u32;
    (0x30 <= u <= 0x39) || (0x61 <= u <= 0x7A) || c == '-'
}

/// What a slug looks like: not empty, made of slug characters, with no `-` at either end.
pub open spec fn slug_shaped(s: Seq<char>) -> bool {
    &&& s.len() > 0
    &&& forall|i: int| 0 <= i < s.len() ==> slug_char(#[trigger] s[i])
    &&& s[0] != '-'
    &&& s.last() != '-'
}

proof fn lemma_slug_from_chars(s: Seq<char>, out: Seq<char>)
    requires
        forall|i: int| 0 <= i < out.len() ==> slug_char(#[trigger] out[i]),
    ensures
        forall|i: int| 0 <= i < slug_from(s, out).len() ==> slug_char(#[trigger] slug_from(s, out)[i]),
    decreases s.len(),
{
    if s.len() > 0 {
        let c = s[0];
        let next = if is_ascii_alnum(c) {
            out.push(ascii_lower_char(c))
        } else if (is_ws(c) || c == '-' || c == '_') && !(out.len() > 0 && out.last() == '-') {
            out.push('-')
        } else {
            out
        };
        if is_ascii_alnum(c) {
            let u = c as u32;
            if 0x41 <= u <= 0x5A {
                assert((((c as u32) + 32) as char) as u32 == (c as u32) + 32);
            }
            assert(slug_char(ascii_lower_char(c)));
        }
        assert forall|i: int| 0 <= i < next.len() implies slug_char(#[trigger] next[i]) by {
            if i < out.len() {
                assert(next[i] == out[i]);
            }
        }
        lemma_slug_from_chars(s.drop_first(), next);
        assert(slug_from(s, out) == slug_from(s.drop_first(), next));
    }
}

proof fn lemma_trim_dashes_start_shape(s: Seq<char>)
    ensures
        trim_dashes_start(s).len() <= s.len(),
        trim_dashes_start(s) == s.skip(s.len() - trim_dashes_start(s).len()),
        trim_dashes_start(s).len() == 0 || trim_dashes_start(s)[0] != '-',
    decreases s.len(),
{
    if s.len() > 0 && s[0] == '-' {
        lemma_trim_dashes_start_shape(s.drop_first());
        let r = trim_dashes_start(s.drop_first());
        assert(s.drop_first().skip(s.drop_first().len() - r.len()) =~= s.skip(s.len() - r.len()));
    } else {
        assert(s.skip(0) =~= s);
    }
}

proof fn lemma_trim_dashes_end_shape(s: Seq<char>)
    ensures
        trim_dashes_end(s).len() <= s.len(),
        trim_dashes_end(s) == s.take(trim_dashes_end(s).len() as int),
        trim_dashes_end(s).len() == 0 || trim_dashes_end(s).last() != '-',
    decreases s.len(),
{
    if s.len() > 0 && s.last() == '-' {
        lemma_trim_dashes_end_shape(s.drop_last());
        let r = trim_dashes_end(s.drop_last());
        assert(s.drop_last().take(r.len() as int) =~= s.take(r.len() as int));
    } else {
        assert(s.take(s.len() as int) =~= s);
    }
}

/// A normalized slug is never empty, holds only lowercase ASCII letters, digits and `-`,
/// and neither starts nor ends with `-`.
pub proof fn lemma_normalized_slug_shape(title: Seq<char>)
    ensures
        slug_shaped(normalized_slug_of(title)),
{
    let raw = slug_from(title, seq![]);
    lemma_slug_from_chars(title, seq![]);
    lemma_trim_dashes_start_shape(raw);
    let y = trim_dashes_start(raw);
    lemma_trim_dashes_end_shape(y);
    let z = trim_dashes_end(y);
    if z.len() == 0 {
        reveal_strlit("unnamed");
        assert(slug_shaped("unnamed"@));
    } else {
        assert forall|i: int| 0 <= i < z.len() implies slug_char(#[trigger] z[i]) by {
            assert(z[i] == y[i]);
            assert(y[i] == raw[raw.len() - y.len() + i]);
        }
        assert(z[0] == y[0]);
    }
}


/// Each Spanish weekday name that schedules are written with denotes the weekday whose
/// systemd abbreviation is its English name: a schedule on "jueves" is rendered on
/// `Thu`, and so on for all seven days and the unaccented spellings.
pub proof fn lemma_weekday_names_render_as_english_days()
    ensures
        helper::weekday_named("domingo"@) matches Some(d) && weekday_abbrev(d) == "Sun"@,
        helper::weekday_named("lunes"@) matches Some(d) && weekday_abbrev(d) == "Mon"@,
        helper::weekday_named("martes"@) matches Some(d) && weekday_abbrev(d) == "Tue"@,
        helper::weekday_named("miércoles"@) matches Some(d) && weekday_abbrev(d) == "Wed"@,
        helper::weekday_named("miercoles"@) matches Some(d) && weekday_abbrev(d) == "Wed"@,
        helper::weekday_named("jueves"@) matches Some(d) && weekday_abbrev(d) == "Thu"@,
        helper::weekday_named("viernes"@) matches Some(d) && weekday_abbrev(d) == "Fri"@,
        helper::weekday_named("sábado"@) matches Some(d) && weekday_abbrev(d) == "Sat"@,
        helper::weekday_named("sabado"@) matches Some(d) && weekday_abbrev(d) == "Sat"@,
{
    reveal_strlit("domingo");
    reveal_strlit("lunes");
    reveal_strlit("martes");
    reveal_strlit("miércoles");
    reveal_strlit("miercoles");
    reveal_strlit("jueves");
    reveal_strlit("viernes");
    reveal_strlit("sábado");
    reveal_strlit("sabado");
    let names = seq![
        "domingo"@,
        "lunes"@,
        "martes"@,
        "miércoles"@,
        "miercoles"@,
        "jueves"@,
        "viernes"@,
        "sábado"@,
        "sabado"@,
    ];
    assert forall|i: int, j: int| 0 <= i < j < 9 implies names[i] != names[j] by {
        let a = names[i];
        let b = names[j];
        if a.len() == b.len() {
            assert(a[0] != b[0] || a[1] != b[1] || a[2] != b[2] || a[3] != b[3]);
        }
    }
    assert(names[1] != names[0]);
    assert(names[2] != names[0] && names[2] != names[1]);
    assert(names[3] != names[0] && names[3] != names[1] && names[3] != names[2]);
    assert(names[4] != names[0] && names[4] != names[1] && names[4] != names[2]);
    assert(names[5] != names[0] && names[5] != names[1] && names[5] != names[2]
        && names[5] != names[3] && names[5] != names[4]);
    assert(names[6] != names[0] && names[6] != names[1] && names[6] != names[2]
        && names[6] != names[3] && names[6] != names[4] && names[6] != names[5]);
    assert(names[7] != names[0] && names[7] != names[1] && names[7] != names[2]
        && names[7] != names[3] && names[7] != names[4] && names[7] != names[5]
        && names[7] != names[6]);
    assert(names[8] != names[0] && names[8] != names[1] && names[8] != names[2]
        && names[8] != names[3] && names[8] != names[4] && names[8] != names[5]
        && names[8] != names[6]);
}

/// Only those names denote a weekday, and different days get different abbreviations,
/// so no two days of a schedule are rendered as one.
pub proof fn lemma_weekday_names_closed_and_days_distinct(s: Seq<char>, a: Weekday, b: Weekday)
    ensures
        helper::weekday_named(s) is Some ==> (s == "domingo"@ || s == "lunes"@ || s == "martes"@
            || s == "miércoles"@ || s == "miercoles"@ || s == "jueves"@ || s == "viernes"@ || s
            == "sábado"@ || s == "sabado"@),
        a != b ==> weekday_abbrev(a) != weekday_abbrev(b),
{
    reveal_strlit("Mon");
    reveal_strlit("Tue");
    reveal_strlit("Wed");
    reveal_strlit("Thu");
    reveal_strlit("Fri");
    reveal_strlit("Sat");
    reveal_strlit("Sun");
    if a != b {
        let x = weekday_abbrev(a);
        let y = weekday_abbrev(b);
        assert(x[0] != y[0] || x[1] != y[1]);
    }
}

} // verus!
