//! Monthly schedules: a day of the month, or the n-th weekday of the month.
use vstd::prelude::*;
use crate::errors;
use crate::parser::{alarm, helper, parseable};
use crate::parser::time as time_mod;
use crate::parser::helper::{
    date_spec_of, ordinal_named, ordinal_number, schedule_line_of, str_views, weekday_named,
    NodeView, RepeatView, ScheduleType,
};
use crate::parser::once::schedule_node;
use crate::parser::parseable::handle_result;
use crate::parser::time::{time_of, DateSpec};
use crate::text::lowercase;

verus! {

#[derive(Debug, Clone, Copy)]
pub enum MonthlyRule {
    DayOfMonth(u8),
    NthWeekday(helper::Weekday, u8),
}

impl MonthlyRule {
    pub fn day_of_month(date: u8) -> (r: Self)
        ensures
            r == MonthlyRule::DayOfMonth(date),
    {
        Self::DayOfMonth(date)
    }

    pub fn nth_weekday(weekday: helper::Weekday, ordinal: helper::Ordinal) -> (r: Self)
        ensures
            r == MonthlyRule::NthWeekday(weekday, helper::ordinal_number(ordinal)),
    {
        Self::NthWeekday(weekday, ordinal.into())
    }
}


pub struct MonthlyParser;

/// A monthly schedule on a day of the month: `D HH:MM`. `Some(None)` when the line has not
/// two words.
pub open spec fn monthly_number_of(ps: Seq<Seq<char>>) -> Option<Option<NodeView>> {
    if ps.len() != 2 {
        Some(None)
    } else {
        match (date_spec_of(ps[0]), time_of(ps[1])) {
            (Some(d), Some(t)) => if d.month != 0 || d.year != 0 {
                None
            } else {
                Some(
                    Some(schedule_node((d, t), RepeatView::Monthly(MonthlyRule::DayOfMonth(d.day)))),
                )
            },
            _ => None,
        }
    }
}

/// A monthly schedule on the n-th weekday: `ordinal weekday HH:MM`. `Some(None)` when
/// the line has not three words.
pub open spec fn monthly_weekday_of(ps: Seq<Seq<char>>) -> Option<Option<NodeView>> {
    if ps.len() != 3 {
        Some(None)
    } else {
        match (
            ordinal_named(lowercase(ps[0])),
            weekday_named(lowercase(ps[1])),
            time_of(ps[2]),
        ) {
            (Some(o), Some(w), Some(t)) => Some(
                Some(
                    schedule_node(
                        (DateSpec::spec_zero(), t),
                        RepeatView::Monthly(MonthlyRule::NthWeekday(w, ordinal_number(o))),
                    ),
                ),
            ),
            _ => None,
        }
    }
}

/// What the words of a monthly schedule line give: a day of the month, else the n-th
/// weekday, else a syntax error.
pub open spec fn monthly_line_of(ps: Seq<Seq<char>>) -> Option<Option<NodeView>> {
    match monthly_number_of(ps) {
        Some(None) => match monthly_weekday_of(ps) {
            Some(None) => None,
            other => other,
        },
        other => other,
    }
}

/// What the monthly parser gives for a line.
pub open spec fn monthly_of(s: Seq<char>) -> Option<Option<NodeView>> {
    match schedule_line_of(s, ScheduleType::Monthly) {
        None => None,
        Some(None) => Some(None),
        Some(Some(ps)) => monthly_line_of(ps),
    }
}

impl parseable::Parseable for MonthlyParser {
    fn handle(&self, input: parseable::Input) -> (r: Result<Option<helper::Node>, errors::Error>)
        ensures
            handle_result(r, monthly_of(input@)),
    {
        let line = match helper::parse_schedule_line(input, ScheduleType::Monthly) {
            Ok(Some(line)) => line,
            Ok(None) => {
                return Ok(None);
            },
            Err(e) => {
                return Err(e);
            },
        };
        parse_monthly_line(&line)
    }
}

pub fn parse_monthly_line(line: &helper::ScheduleLine) -> (r: Result<Option<helper::Node>, errors::Error>)
    ensures
        handle_result(r, monthly_line_of(line@)),
{
    match parse_monthly_number(line) {
        Ok(Some(node)) => {
            return Ok(Some(node));
        },
        Ok(None) => {},
        Err(e) => {
            return Err(e);
        },
    }
    match parse_monthly_weekday(line) {
        Ok(Some(node)) => {
            return Ok(Some(node));
        },
        Ok(None) => {},
        Err(e) => {
            return Err(e);
        },
    }
    Err(errors::Error::Syntax)
}

fn parse_monthly_number(line: &helper::ScheduleLine) -> (r: Result<Option<helper::Node>, errors::Error>)
    ensures
        handle_result(r, monthly_number_of(line@)),
{
    let parts = line.parts();
    if parts.len() != 2 {
        return Ok(None);
    }
    assert(str_views(parts@)[0] == parts@[0]@);
    assert(str_views(parts@)[1] == parts@[1]@);
    let day = match helper::parse_date_spec(parts[0]) {
        Ok(d) => d,
        Err(e) => {
            return Err(e);
        },
    };
    let time = match time_mod::parse_time(parts[1]) {
        Ok(t) => t,
        Err(e) => {
            return Err(e);
        },
    };
    if day.month != 0 || day.year != 0 {
        return Err(errors::Error::Syntax);
    }
    let at: time_mod::DateTimeSpec = (time, day).into();
    Ok(Some(helper::Node::AlarmSchedule(alarm::AlarmSchedule::new(
        Some(at),
        helper::RepeatSpec::Monthly(MonthlyRule::day_of_month(day.day)),
    ))))
}

fn parse_monthly_weekday(line: &helper::ScheduleLine) -> (r: Result<Option<helper::Node>, errors::Error>)
    ensures
        handle_result(r, monthly_weekday_of(line@)),
{
    let parts = line.parts();
    if parts.len() != 3 {
        return Ok(None);
    }
    assert(str_views(parts@)[0] == parts@[0]@);
    assert(str_views(parts@)[1] == parts@[1]@);
    assert(str_views(parts@)[2] == parts@[2]@);
    let ordinal = match helper::Ordinal::from_str(parts[0]) {
        Some(o) => o,
        None => {
            return Err(errors::Error::Syntax);
        },
    };
    let weekday = match helper::Weekday::new(parts[1]) {
        Some(w) => w,
        None => {
            return Err(errors::Error::Syntax);
        },
    };
    let time = match time_mod::parse_time(parts[2]) {
        Ok(t) => t,
        Err(e) => {
            return Err(e);
        },
    };
    let at: time_mod::DateTimeSpec = (time, time_mod::DateSpec::zero()).into();
    Ok(Some(helper::Node::AlarmSchedule(alarm::AlarmSchedule::new(
        Some(at),
        helper::RepeatSpec::Monthly(MonthlyRule::nth_weekday(weekday, ordinal)),
    ))))
}

} // verus!
