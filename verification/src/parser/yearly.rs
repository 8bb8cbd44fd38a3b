//! Yearly schedules.
use vstd::prelude::*;
use crate::errors;
use crate::parser::{alarm, helper, parseable, time};
use crate::parser::helper::{date_spec_of, schedule_line_of, str_views, NodeView, RepeatView, ScheduleType};
use crate::parser::once::schedule_node;
use crate::parser::parseable::handle_result;
use crate::parser::time::time_of;

verus! {

/// The day of the year that a yearly schedule rings on.
#[derive(Debug, Clone, Copy)]
pub enum YearlyRule {
    /// A day and a month.
    DayMonth(u8, u8),
    /// The n-th (1 to 4) weekday of every month. The renderer supports it, though no line
    /// of the yearly grammar gives it: the yearly parser only gives [`YearlyRule::DayMonth`].
    NthWeekday(helper::Weekday, u8),
}

impl YearlyRule {
    pub fn new_day_month(date: time::DateSpec) -> (r: Self)
        ensures
            r == YearlyRule::DayMonth(date.day, date.month),
    {
        Self::DayMonth(date.day, date.month)
    }
}


pub struct YearlyParser;

/// What the yearly parser gives for a line: `D/M HH:MM`, without a year.
pub open spec fn yearly_of(s: Seq<char>) -> Option<Option<NodeView>> {
    match schedule_line_of(s, ScheduleType::Yearly) {
        None => None,
        Some(None) => Some(None),
        Some(Some(ps)) => if ps.len() != 2 {
            None
        } else {
            match (date_spec_of(ps[0]), time_of(ps[1])) {
                (Some(d), Some(t)) => if d.year != 0 {
                    None
                } else {
                    Some(
                        Some(
                            schedule_node(
                                (d, t),
                                RepeatView::Yearly(YearlyRule::DayMonth(d.day, d.month)),
                            ),
                        ),
                    )
                },
                _ => None,
            }
        },
    }
}

impl parseable::Parseable for YearlyParser {
    fn handle(&self, input: parseable::Input) -> (r: Result<Option<helper::Node>, errors::Error>)
        ensures
            handle_result(r, yearly_of(input@)),
    {
        let line = match helper::parse_schedule_line(input, ScheduleType::Yearly) {
            Ok(Some(line)) => line,
            Ok(None) => {
                return Ok(None);
            },
            Err(e) => {
                return Err(e);
            },
        };
        let parts = line.parts();
        if parts.len() != 2 {
            return Err(errors::Error::Syntax);
        }
        assert(str_views(parts@)[0] == parts@[0]@);
        assert(str_views(parts@)[1] == parts@[1]@);
        let date = match helper::parse_date_spec(parts[0]) {
            Ok(d) => d,
            Err(e) => {
                return Err(e);
            },
        };
        let time = match time::parse_time(parts[1]) {
            Ok(t) => t,
            Err(e) => {
                return Err(e);
            },
        };
        if date.year != 0 {
            return Err(errors::Error::Syntax);
        }
        let at: time::DateTimeSpec = (time, date).into();
        Ok(Some(helper::Node::AlarmSchedule(alarm::AlarmSchedule::new(
            Some(at),
            helper::RepeatSpec::Yearly(YearlyRule::new_day_month(date)),
        ))))
    }
}

} // verus!
