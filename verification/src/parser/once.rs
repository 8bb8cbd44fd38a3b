//! One-time schedules: `schedule: D/M/Y HH:MM`.
use vstd::prelude::*;
use crate::errors;
use crate::parser::{alarm, helper, parseable, time};
use crate::parser::helper::{date_spec_of, schedule_line_of, str_views, NodeView, RepeatView, ScheduleType};
use crate::parser::parseable::handle_result;
use crate::parser::time::time_of;

verus! {

pub struct OnceScheduler;

/// The node of a schedule at the date and time `at`, repeated as `repeat` says.
pub open spec fn schedule_node(at: (time::DateSpec, time::TimeSpec), repeat: RepeatView) -> NodeView {
    NodeView::AlarmSchedule(alarm::ScheduleView { at: Some(at), repeat })
}

/// What the one-time parser gives for a line.
pub open spec fn once_of(s: Seq<char>) -> Option<Option<NodeView>> {
    match schedule_line_of(s, ScheduleType::Once) {
        None => None,
        Some(None) => Some(None),
        Some(Some(ps)) => if ps.len() != 2 {
            None
        } else {
            match (date_spec_of(ps[0]), time_of(ps[1])) {
                (Some(d), Some(t)) => Some(Some(schedule_node((d, t), RepeatView::Never))),
                _ => None,
            }
        },
    }
}

impl parseable::Parseable for OnceScheduler {
    fn handle(&self, input: parseable::Input) -> (r: Result<Option<helper::Node>, errors::Error>)
        ensures
            handle_result(r, once_of(input@)),
    {
        let line = match helper::parse_schedule_line(input, ScheduleType::Once) {
            Ok(Some(line)) => line,
            Ok(None) => {
                return Ok(None);
            },
            Err(e) => {
                return Err(e);
            },
        };
        let parts = line.parts();
        if parts.len() != 2 {
            return Err(errors::Error::Syntax);
        }
        assert(str_views(parts@)[0] == parts@[0]@);
        assert(str_views(parts@)[1] == parts@[1]@);
        let date = match helper::parse_date_spec(parts[0]) {
            Ok(d) => d,
            Err(e) => {
                return Err(e);
            },
        };
        let time = match time::parse_time(parts[1]) {
            Ok(t) => t,
            Err(e) => {
                return Err(e);
            },
        };
        let at: time::DateTimeSpec = (time, date).into();
        Ok(Some(helper::Node::AlarmSchedule(alarm::AlarmSchedule::new(Some(at), helper::RepeatSpec::Never))))
    }
}

} // verus!
