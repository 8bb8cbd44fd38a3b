use alarms::errors::Error;
use alarms::parser::alarm::{AlarmParser, AlarmType};
use alarms::parser::daily::DailyParser;
use alarms::parser::helper::{self, Days, Node, Ordinal, RepeatSpec, ScheduleType, Weekday};
use alarms::parser::monthly::{MonthlyParser, MonthlyRule};
use alarms::parser::once::OnceScheduler;
use alarms::parser::parseable::Parseable;
use alarms::parser::reference::ReferenceParser;
use alarms::parser::time;
use alarms::parser::weekly::WeeklyParser;
use alarms::parser::yearly::{YearlyParser, YearlyRule};

#[test]
fn parse_date_spec_day_only() {
    let d = helper::parse_date_spec("15").unwrap();
    assert_eq!(d.day, 15);
    assert_eq!(d.month, 0);
    assert_eq!(d.year, 0);
}

#[test]
fn parse_date_spec_day_month() {
    let d = helper::parse_date_spec("15/7").unwrap();
    assert_eq!(d.day, 15);
    assert_eq!(d.month, 7);
    assert_eq!(d.year, 0);
}

#[test]
fn parse_date_spec_full_date() {
    let d = helper::parse_date_spec("15/7/2027").unwrap();
    assert_eq!(d.day, 15);
    assert_eq!(d.month, 7);
    assert_eq!(d.year, 2027);
}

#[test]
fn parse_date_spec_rejects_invalid_day() {
    assert!(matches!(helper::parse_date_spec("0"), Err(Error::Syntax)));
    assert!(matches!(helper::parse_date_spec("32"), Err(Error::Syntax)));
}

#[test]
fn parse_schedule_line_daily_matches_expected_type() {
    let line = helper::parse_schedule_line("schedule: daily 08:30", ScheduleType::Daily)
        .unwrap()
        .unwrap();

    assert_eq!(line.parts(), &["08:30"]);
}

#[test]
fn parse_schedule_line_returns_none_for_other_schedule_types() {
    let line = helper::parse_schedule_line("schedule: weekly lunes 08:30", ScheduleType::Daily)
        .unwrap();

    assert!(line.is_none());
}

#[test]
fn find_last_unescaped_finds_real_separator() {
    let s = r"hello \(ignored\) (real)";
    let idx = helper::find_last_unescaped(s, '(').unwrap();
    assert_eq!(&s[idx..], "(real)");
}

#[test]
fn weekday_parses_accented_and_plain_forms() {
    assert!(matches!(
        Weekday::new("miércoles"),
        Some(Weekday::Miercoles)
    ));
    assert!(matches!(
        Weekday::new("miercoles"),
        Some(Weekday::Miercoles)
    ));
    assert!(matches!(Weekday::new("sábado"), Some(Weekday::Sabado)));
    assert!(matches!(Weekday::new("sabado"), Some(Weekday::Sabado)));
}

#[test]
fn ordinal_parses_spanish_words() {
    assert!(matches!(Ordinal::from_str("primer"), Some(Ordinal::First)));
    assert!(matches!(Ordinal::from_str("último"), Some(Ordinal::Last)));
    assert!(matches!(Ordinal::from_str("ultimo"), Some(Ordinal::Last)));
}

#[test]
fn days_insert_and_contains_work() {
    let mut days = Days::none();
    days.insert(Weekday::Lunes);
    days.insert(Weekday::Viernes);

    assert!(days.contains(Weekday::Lunes));
    assert!(days.contains(Weekday::Viernes));
    assert!(!days.contains(Weekday::Martes));
}

#[test]
fn parse_time_accepts_valid_time() {
    let t = time::parse_time("23:59").unwrap();
    assert_eq!(t.hour, 23);
    assert_eq!(t.minute, 59);
}

#[test]
fn parse_time_rejects_invalid_time() {
    assert!(matches!(time::parse_time("24:00"), Err(Error::Syntax)));
    assert!(matches!(time::parse_time("12:60"), Err(Error::Syntax)));
    assert!(matches!(time::parse_time("12"), Err(Error::Syntax)));
}

#[test]
fn alarm_parser_parses_default_alarm() {
    let node = AlarmParser.handle("alarm: Wake up").unwrap().unwrap();

    match node {
        Node::Alarm(alarm) => {
            assert_eq!(alarm.name(), "Wake up");
            assert!(matches!(alarm.kind(), AlarmType::Default));
        }
        _ => panic!("expected alarm node"),
    }
}

#[test]
fn alarm_parser_parses_explicit_kind() {
    let node = AlarmParser
        .handle("alarm: Wake up (important)")
        .unwrap()
        .unwrap();

    match node {
        Node::Alarm(alarm) => {
            assert_eq!(alarm.name(), "Wake up");
            assert!(matches!(alarm.kind(), AlarmType::Important));
        }
        _ => panic!("expected alarm node"),
    }
}

#[test]
fn alarm_parser_unescapes_parentheses_in_title() {
    let node = AlarmParser
        .handle(r"alarm: Call Mom \(weekly\)")
        .unwrap()
        .unwrap();

    match node {
        Node::Alarm(alarm) => assert_eq!(alarm.name(), "Call Mom (weekly)"),
        _ => panic!("expected alarm node"),
    }
}

#[test]
fn reference_parser_parses_checkbox_link() {
    let node = ReferenceParser.handle("- [ ] [[chores]]").unwrap().unwrap();

    match node {
        Node::Reference(reference) => assert_eq!(reference.target(), "chores.md"),
        _ => panic!("expected reference node"),
    }
}

#[test]
fn once_parser_builds_non_repeating_schedule() {
    let node = OnceScheduler
        .handle("schedule: 15/7/2027 09:45")
        .unwrap()
        .unwrap();

    match node {
        Node::AlarmSchedule(schedule) => {
            assert!(matches!(schedule.repeat(), RepeatSpec::Never));
            let at = schedule.at().unwrap();
            assert_eq!(at.date().day, 15);
            assert_eq!(at.date().month, 7);
            assert_eq!(at.date().year, 2027);
            assert_eq!(at.time().hour, 9);
            assert_eq!(at.time().minute, 45);
        }
        _ => panic!("expected schedule node"),
    }
}

#[test]
fn daily_parser_builds_daily_schedule() {
    let node = DailyParser
        .handle("schedule: daily 08:30")
        .unwrap()
        .unwrap();

    match node {
        Node::AlarmSchedule(schedule) => {
            assert!(matches!(schedule.repeat(), RepeatSpec::Daily));
            let at = schedule.at().unwrap();
            assert_eq!(at.time().hour, 8);
            assert_eq!(at.time().minute, 30);
        }
        _ => panic!("expected schedule node"),
    }
}

#[test]
fn weekly_parser_builds_weekly_schedule() {
    let node = WeeklyParser
        .handle("schedule: weekly lunes viernes 06:15")
        .unwrap()
        .unwrap();

    match node {
        Node::AlarmSchedule(schedule) => match schedule.repeat() {
            RepeatSpec::Weekly(days) => {
                assert!(days.contains(Weekday::Lunes));
                assert!(days.contains(Weekday::Viernes));
                assert!(!days.contains(Weekday::Martes));
            }
            _ => panic!("expected weekly repeat"),
        },
        _ => panic!("expected schedule node"),
    }
}

#[test]
fn monthly_parser_builds_day_of_month_rule() {
    let node = MonthlyParser
        .handle("schedule: monthly 15 10:00")
        .unwrap()
        .unwrap();

    match node {
        Node::AlarmSchedule(schedule) => match schedule.repeat() {
            RepeatSpec::Monthly(MonthlyRule::DayOfMonth(day)) => assert_eq!(day, 15),
            _ => panic!("expected monthly day-of-month rule"),
        },
        _ => panic!("expected schedule node"),
    }
}

#[test]
fn monthly_parser_builds_nth_weekday_rule() {
    let node = MonthlyParser
        .handle("schedule: monthly primer lunes 10:00")
        .unwrap()
        .unwrap();

    match node {
        Node::AlarmSchedule(schedule) => match schedule.repeat() {
            RepeatSpec::Monthly(MonthlyRule::NthWeekday(Weekday::Lunes, 1)) => {}
            _ => panic!("expected nth-weekday monthly rule"),
        },
        _ => panic!("expected schedule node"),
    }
}

#[test]
fn yearly_parser_builds_day_month_rule() {
    let node = YearlyParser
        .handle("schedule: yearly 25/12 07:00")
        .unwrap()
        .unwrap();

    match node {
        Node::AlarmSchedule(schedule) => match schedule.repeat() {
            RepeatSpec::Yearly(YearlyRule::DayMonth(day, month)) => {
                assert_eq!(day, 25);
                assert_eq!(month, 12);
            }
            _ => panic!("expected yearly day/month rule"),
        },
        _ => panic!("expected schedule node"),
    }
}
