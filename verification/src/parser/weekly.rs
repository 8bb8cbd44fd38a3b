//! Weekly schedules: `schedule: weekly lunes viernes HH:MM`.
use vstd::prelude::*;
use crate::errors;
use crate::parser::{alarm, helper, parseable, time};
use crate::parser::helper::{
    schedule_line_of, str_views, weekday_named, NodeView, RepeatView, ScheduleType, Weekday,
};
use crate::parser::once::schedule_node;
use crate::parser::parseable::handle_result;
use crate::parser::time::{time_of, DateSpec};
use crate::text::lowercase;

verus! {

pub struct WeeklyParser;

/// Whether every word names a weekday.
pub open spec fn all_weekdays(days: Seq<Seq<char>>) -> bool {
    forall|i: int| 0 <= i < days.len() ==> (#[trigger] weekday_named(lowercase(days[i]))) is Some
}

/// The weekdays that the words name.
pub open spec fn weekday_set(days: Seq<Seq<char>>) -> Set<Weekday>
    decreases days.len(),
{
    if days.len() == 0 {
        Set::empty()
    } else {
        weekday_set(days.drop_last()).insert(weekday_named(lowercase(days.last()))->0)
    }
}

/// What the weekly parser gives for a line: the last word is the time, the words before
/// it the weekdays.
pub open spec fn weekly_of(s: Seq<char>) -> Option<Option<NodeView>> {
    match schedule_line_of(s, ScheduleType::Weekly) {
        None => None,
        Some(None) => Some(None),
        Some(Some(ps)) => if ps.len() < 2 {
            None
        } else {
            match time_of(ps.last()) {
                None => None,
                Some(t) => {
                    let days = ps.drop_last();
                    if !all_weekdays(days) || weekday_set(days) == Set::<Weekday>::empty() {
                        None
                    } else {
                        Some(
                            Some(
                                schedule_node(
                                    (DateSpec::spec_zero(), t),
                                    RepeatView::Weekly(weekday_set(days)),
                                ),
                            ),
                        )
                    }
                },
            }
        },
    }
}

impl parseable::Parseable for WeeklyParser {
    fn handle(&self, input: parseable::Input) -> (r: Result<Option<helper::Node>, errors::Error>)
        ensures
            handle_result(r, weekly_of(input@)),
    {
        let line = match helper::parse_schedule_line(input, ScheduleType::Weekly) {
            Ok(Some(line)) => line,
            Ok(None) => {
                return Ok(None);
            },
            Err(e) => {
                return Err(e);
            },
        };
        let parts = line.parts();
        let ghost ps = line@;
        if parts.len() < 2 {
            return Err(errors::Error::Syntax);
        }
        let n = parts.len() - 1;
        assert(str_views(parts@)[n as int] == parts@[n as int]@);
        let time = match time::parse_time(parts[n]) {
            Ok(t) => t,
            Err(e) => {
                return Err(e);
            },
        };
        let ghost days = ps.drop_last();
        let mut weekdays = helper::Days::none();
        let mut i: usize = 0;
        assert(days.take(0) =~= Seq::<Seq<char>>::empty());
        while i < n
            invariant
                i <= n,
                n + 1 == parts@.len(),
                str_views(parts@) == ps,
                schedule_line_of(input@, ScheduleType::Weekly) == Some(Some(ps)),
                time_of(ps.last()) == Some(time),
                days == ps.drop_last(),
                all_weekdays(days.take(i as int)),
                weekdays@ == weekday_set(days.take(i as int)),
            decreases n - i,
        {
            assert(str_views(parts@)[i as int] == parts@[i as int]@);
            assert(days[i as int] == ps[i as int]);
            let weekday = match helper::Weekday::new(parts[i]) {
                Some(w) => w,
                None => {
                    assert(!all_weekdays(days)) by {
                        assert(weekday_named(lowercase(days[i as int])) is None);
                    }
                    return Err(errors::Error::Syntax);
                },
            };
            weekdays.insert(weekday);
            assert(days.take(i + 1).drop_last() =~= days.take(i as int));
            assert(days.take(i + 1).last() == days[i as int]);
            assert(all_weekdays(days.take(i + 1))) by {
                assert forall|k: int| 0 <= k < i + 1 implies (#[trigger] weekday_named(
                    lowercase(days.take(i + 1)[k]),
                )) is Some by {
                    if k < i {
                        assert(days.take(i + 1)[k] == days.take(i as int)[k]);
                    }
                }
            }
            i = i + 1;
        }
        assert(days.take(n as int) =~= days);
        let empty = helper::Days::none();
        let is_none = weekdays == empty;
        if is_none {
            return Err(errors::Error::Syntax);
        }
        proof {
            if weekdays@ == Set::<Weekday>::empty() {
                helper::Days::lemma_view_injective(weekdays, empty);
            }
        }
        let at: time::DateTimeSpec = (time, time::DateSpec::zero()).into();
        Ok(Some(helper::Node::AlarmSchedule(alarm::AlarmSchedule::new(Some(at), helper::RepeatSpec::Weekly(weekdays)))))
    }
}

} // verus!
