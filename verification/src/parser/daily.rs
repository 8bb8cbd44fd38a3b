//! Daily schedules: `schedule: daily HH:MM`.
use vstd::prelude::*;
use crate::errors;
use crate::parser::{alarm, helper, parseable, time};
use crate::parser::helper::{schedule_line_of, str_views, NodeView, RepeatView, ScheduleType};
use crate::parser::once::schedule_node;
use crate::parser::parseable::handle_result;
use crate::parser::time::{time_of, DateSpec};

verus! {

pub struct DailyParser;

/// What the daily parser gives for a line.
pub open spec fn daily_of(s: Seq<char>) -> Option<Option<NodeView>> {
    match schedule_line_of(s, ScheduleType::Daily) {
        None => None,
        Some(None) => Some(None),
        Some(Some(ps)) => if ps.len() != 1 {
            None
        } else {
            match time_of(ps[0]) {
                Some(t) => Some(Some(schedule_node((DateSpec::spec_zero(), t), RepeatView::Daily))),
                None => None,
            }
        },
    }
}

impl parseable::Parseable for DailyParser {
    fn handle(&self, input: parseable::Input) -> (r: Result<Option<helper::Node>, errors::Error>)
        ensures
            handle_result(r, daily_of(input@)),
    {
        let line = match helper::parse_schedule_line(input, ScheduleType::Daily) {
            Ok(Some(line)) => line,
            Ok(None) => {
                return Ok(None);
            },
            Err(e) => {
                return Err(e);
            },
        };
        let parts = line.parts();
        if parts.len() != 1 {
            return Err(errors::Error::Syntax);
        }
        assert(str_views(parts@)[0] == parts@[0]@);
        let time = match time::parse_time(parts[0]) {
            Ok(t) => t,
            Err(e) => {
                return Err(e);
            },
        };
        let at: time::DateTimeSpec = (time, time::DateSpec::zero()).into();
        Ok(Some(helper::Node::AlarmSchedule(alarm::AlarmSchedule::new(Some(at), helper::RepeatSpec::Daily))))
    }
}

} // verus!
