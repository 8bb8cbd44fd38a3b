use alarms::compile::{compile_alarms, ScheduleDefinition};
use alarms::parser::{
    alarm::{Alarm, AlarmSchedule, AlarmType},
    helper::{Days, Node, RepeatSpec, Weekday},
    monthly::MonthlyRule,
    time::{DateSpec, TimeSpec},
    yearly::YearlyRule,
};

#[test]
fn compiles_single_alarm_with_daily_schedule() {
    let nodes = vec![
        Node::Alarm(Alarm::new("Wake up", AlarmType::Default)),
        Node::AlarmSchedule(AlarmSchedule::new(
            Some((TimeSpec::new(8, 30), DateSpec::zero()).into()),
            RepeatSpec::Daily,
        )),
    ];

    let compiled = compile_alarms(&nodes);

    assert!(compiled.is_clean());
    assert_eq!(compiled.errors().len(), 0);
    assert_eq!(compiled.alarms().len(), 1);

    let alarm = &compiled.alarms()[0];
    assert_eq!(alarm.title, "Wake up");
    assert!(matches!(alarm.kind, AlarmType::Default));
    assert_eq!(alarm.schedules.len(), 1);

    match alarm.schedules[0] {
        ScheduleDefinition::Daily { time } => {
            assert_eq!(time.hour, 8);
            assert_eq!(time.minute, 30);
        }
        _ => panic!("expected daily schedule"),
    }
}

#[test]
fn reports_schedule_without_alarm() {
    let nodes = vec![Node::AlarmSchedule(AlarmSchedule::new(
        Some((TimeSpec::new(9, 0), DateSpec::zero()).into()),
        RepeatSpec::Daily,
    ))];

    let compiled = compile_alarms(&nodes);

    assert!(!compiled.is_clean());
    assert_eq!(compiled.alarms().len(), 0);
    assert_eq!(compiled.errors().len(), 1);
    assert!(compiled.errors()[0].message().contains("Schedule Without Alarm"));
}

#[test]
fn reports_alarm_without_schedule() {
    let nodes = vec![Node::Alarm(Alarm::new("Lonely", AlarmType::Important))];

    let compiled = compile_alarms(&nodes);

    assert!(!compiled.is_clean());
    assert_eq!(compiled.alarms().len(), 0);
    assert_eq!(compiled.errors().len(), 1);
    assert!(compiled.errors()[0].message().contains("Alarm Without Schedule: Lonely"));
}

#[test]
fn flushes_previous_alarm_when_new_alarm_starts() {
    let nodes = vec![
        Node::Alarm(Alarm::new("First", AlarmType::Default)),
        Node::AlarmSchedule(AlarmSchedule::new(
            Some((TimeSpec::new(7, 0), DateSpec::zero()).into()),
            RepeatSpec::Daily,
        )),
        Node::Alarm(Alarm::new("Second", AlarmType::Important)),
        Node::AlarmSchedule(AlarmSchedule::new(
            Some((TimeSpec::new(9, 15), DateSpec::zero()).into()),
            RepeatSpec::Daily,
        )),
    ];

    let compiled = compile_alarms(&nodes);

    assert!(compiled.is_clean());
    assert_eq!(compiled.alarms().len(), 2);
    assert_eq!(compiled.alarms()[0].title, "First");
    assert_eq!(compiled.alarms()[1].title, "Second");
}

#[test]
fn previous_alarm_without_schedule_becomes_error_even_if_next_alarm_is_valid() {
    let nodes = vec![
        Node::Alarm(Alarm::new("Broken", AlarmType::Default)),
        Node::Alarm(Alarm::new("Valid", AlarmType::Important)),
        Node::AlarmSchedule(AlarmSchedule::new(
            Some((TimeSpec::new(6, 45), DateSpec::zero()).into()),
            RepeatSpec::Daily,
        )),
    ];

    let compiled = compile_alarms(&nodes);

    assert!(!compiled.is_clean());
    assert_eq!(compiled.errors().len(), 1);
    assert!(compiled.errors()[0].message().contains("Alarm Without Schedule: Broken"));

    assert_eq!(compiled.alarms().len(), 1);
    assert_eq!(compiled.alarms()[0].title, "Valid");
}

#[test]
fn attaches_multiple_schedules_to_same_alarm() {
    let nodes = vec![
        Node::Alarm(Alarm::new("Hydrate", AlarmType::Default)),
        Node::AlarmSchedule(AlarmSchedule::new(
            Some((TimeSpec::new(9, 0), DateSpec::zero()).into()),
            RepeatSpec::Daily,
        )),
        Node::AlarmSchedule(AlarmSchedule::new(
            Some((TimeSpec::new(15, 0), DateSpec::zero()).into()),
            RepeatSpec::Daily,
        )),
    ];

    let compiled = compile_alarms(&nodes);

    assert!(compiled.is_clean());
    assert_eq!(compiled.alarms().len(), 1);
    assert_eq!(compiled.alarms()[0].schedules.len(), 2);
}

#[test]
fn converts_once_schedule() {
    let nodes = vec![
        Node::Alarm(Alarm::new("Doctor", AlarmType::Default)),
        Node::AlarmSchedule(AlarmSchedule::new(
            Some((TimeSpec::new(14, 5), DateSpec::new(9, 4, 2027)).into()),
            RepeatSpec::Never,
        )),
    ];

    let compiled = compile_alarms(&nodes);
    let schedule = compiled.alarms()[0].schedules[0];

    match schedule {
        ScheduleDefinition::Once { at } => {
            assert_eq!(at.date().day, 9);
            assert_eq!(at.date().month, 4);
            assert_eq!(at.date().year, 2027);
            assert_eq!(at.time().hour, 14);
            assert_eq!(at.time().minute, 5);
        }
        _ => panic!("expected once schedule"),
    }
}

#[test]
fn converts_weekly_schedule() {
    let mut days = Days::none();
    days.insert(Weekday::Lunes);
    days.insert(Weekday::Viernes);

    let nodes = vec![
        Node::Alarm(Alarm::new("Gym", AlarmType::Default)),
        Node::AlarmSchedule(AlarmSchedule::new(
            Some((TimeSpec::new(6, 0), DateSpec::zero()).into()),
            RepeatSpec::Weekly(days),
        )),
    ];

    let compiled = compile_alarms(&nodes);
    let schedule = compiled.alarms()[0].schedules[0];

    match schedule {
        ScheduleDefinition::Weekly { days, time } => {
            assert!(days.contains(Weekday::Lunes));
            assert!(days.contains(Weekday::Viernes));
            assert!(!days.contains(Weekday::Martes));
            assert_eq!(time.hour, 6);
            assert_eq!(time.minute, 0);
        }
        _ => panic!("expected weekly schedule"),
    }
}

#[test]
fn converts_monthly_schedule() {
    let nodes = vec![
        Node::Alarm(Alarm::new("Rent", AlarmType::Default)),
        Node::AlarmSchedule(AlarmSchedule::new(
            Some((TimeSpec::new(10, 0), DateSpec::zero()).into()),
            RepeatSpec::Monthly(MonthlyRule::DayOfMonth(1)),
        )),
    ];

    let compiled = compile_alarms(&nodes);
    let schedule = compiled.alarms()[0].schedules[0];

    match schedule {
        ScheduleDefinition::Monthly { rule, time } => {
            match rule {
                MonthlyRule::DayOfMonth(day) => assert_eq!(day, 1),
                _ => panic!("expected day-of-month rule"),
            }
            assert_eq!(time.hour, 10);
            assert_eq!(time.minute, 0);
        }
        _ => panic!("expected monthly schedule"),
    }
}

#[test]
fn converts_yearly_schedule() {
    let nodes = vec![
        Node::Alarm(Alarm::new("Christmas", AlarmType::Important)),
        Node::AlarmSchedule(AlarmSchedule::new(
            Some((TimeSpec::new(7, 30), DateSpec::zero()).into()),
            RepeatSpec::Yearly(YearlyRule::DayMonth(25, 12)),
        )),
    ];

    let compiled = compile_alarms(&nodes);
    let schedule = compiled.alarms()[0].schedules[0];

    match schedule {
        ScheduleDefinition::Yearly { rule, time } => {
            match rule {
                YearlyRule::DayMonth(day, month) => {
                    assert_eq!(day, 25);
                    assert_eq!(month, 12);
                }
                _ => panic!("expected day/month yearly rule"),
            }
            assert_eq!(time.hour, 7);
            assert_eq!(time.minute, 30);
        }
        _ => panic!("expected yearly schedule"),
    }
}
