use alarms::compile::{AlarmDefinition, ScheduleDefinition};
use alarms::parser::alarm::AlarmType;
use alarms::parser::time::{DateSpec, TimeSpec};
use alarms::systemd::{
    classify_units_in_dir, is_managed_alarm_unit, normalized_slug, render_alarms, shell_escape,
    RenderedAlarmUnits, RenderedUnit,
};

fn alarm(title: &str, kind: AlarmType, schedules: Vec<ScheduleDefinition>) -> AlarmDefinition {
    AlarmDefinition {
        title: title.to_string(),
        kind,
        schedules,
    }
}

#[test]
fn normalized_slug_slugifies_title() {
    assert_eq!(normalized_slug("Wake Up!"), "wake-up");
    assert_eq!(normalized_slug("mañana"), "maana");
    assert_eq!(normalized_slug("___"), "unnamed");
}

#[test]
fn shell_escape_wraps_and_escapes_single_quotes() {
    assert_eq!(shell_escape("plain"), "'plain'");
    assert_eq!(shell_escape("Bob's alarm"), "'Bob'\\''s alarm'");
}

#[test]
fn managed_alarm_unit_recognizes_only_expected_names() {
    assert!(is_managed_alarm_unit("alarm-wake-up.timer"));
    assert!(is_managed_alarm_unit("alarm-wake-up.service"));
    assert!(!is_managed_alarm_unit("wake-up.timer"));
    assert!(!is_managed_alarm_unit("alarm-wake-up.socket"));
}

#[test]
fn classify_units_in_dir_finds_stale_managed_units_only() {
    let rendered = vec![RenderedAlarmUnits {
        service: RenderedUnit {
            name: "alarm-keep.service".into(),
            contents: String::new(),
        },
        timers: vec![RenderedUnit {
            name: "alarm-keep-1.timer".into(),
            contents: String::new(),
        }],
    }];

    let entries = vec![
        "alarm-keep.service",
        "alarm-keep-1.timer",
        "alarm-old.service",
        "alarm-old-1.timer",
        "notes.txt",
        "other.timer",
    ];

    let (stale_timers, stale_services) = classify_units_in_dir(&rendered, entries);

    assert_eq!(stale_timers, vec!["alarm-old-1.timer"]);
    assert_eq!(stale_services, vec!["alarm-old.service"]);
}

#[test]
fn render_alarms_adds_dup_suffix_for_colliding_slugs() {
    let alarms = vec![
        alarm(
            "Wake Up",
            AlarmType::Default,
            vec![ScheduleDefinition::Daily {
                time: TimeSpec::new(8, 0),
            }],
        ),
        alarm(
            "Wake-Up",
            AlarmType::Important,
            vec![ScheduleDefinition::Daily {
                time: TimeSpec::new(9, 0),
            }],
        ),
    ];

    let rendered = render_alarms(&alarms, "/bin/alarm");

    assert_eq!(rendered.len(), 2);
    assert_eq!(rendered[0].service.name, "alarm-wake-up-dup1.service");
    assert_eq!(rendered[1].service.name, "alarm-wake-up-dup2.service");
}

#[test]
fn render_alarms_renders_service_and_timer_contents() {
    let alarms = vec![alarm(
        "Wake Up",
        AlarmType::Important,
        vec![ScheduleDefinition::Daily {
            time: TimeSpec::new(8, 30),
        }],
    )];

    let rendered = render_alarms(&alarms, "/usr/local/bin/alarm");

    let unit = &rendered[0];
    assert!(
        unit.service
            .contents
            .contains("ExecStart=/usr/local/bin/alarm fire")
    );
    assert!(unit.service.contents.contains("--title 'Wake Up'"));
    assert!(unit.service.contents.contains("--kind 'important'"));

    assert_eq!(unit.timers.len(), 1);
    assert!(
        unit.timers[0]
            .contents
            .contains("OnCalendar=*-*-* 08:30:00")
    );
    assert!(
        unit.timers[0]
            .contents
            .contains("Unit=alarm-wake-up.service")
    );
}

#[test]
fn render_once_schedule_uses_full_timestamp() {
    let alarms = vec![alarm(
        "Doctor",
        AlarmType::Default,
        vec![ScheduleDefinition::Once {
            at: (TimeSpec::new(14, 5), DateSpec::new(9, 4, 2027)).into(),
        }],
    )];

    let rendered = render_alarms(&alarms, "/bin/alarm");
    assert!(
        rendered[0].timers[0]
            .contents
            .contains("OnCalendar=2027-04-09 14:05:00")
    );
}
