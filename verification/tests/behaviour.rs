use alarms::compile::{compile_alarms, AlarmDefinition, ScheduleDefinition};
use alarms::errors::{CompileError, Error, LineError};
use alarms::expand::{ExpandAction, Expander};
use alarms::fire::{
    action_for_status, media_command, next_snooze, parse_fire_args, question,
    resolve_kind_path, AlarmAction, AlarmKindConfig, AudioBackend, MediaConfig,
    NotificationConfig, SnoozeConfig,
};
use alarms::parser::alarm::{Alarm, AlarmParser, AlarmSchedule, AlarmType};
use alarms::parser::file::{classify_file, FileType, ParsedFile};
use alarms::parser::helper::{
    self, find_last_unescaped, Days, Node, Ordinal, RepeatSpec, ScheduleType, Weekday,
};
use alarms::parser::monthly::{MonthlyParser, MonthlyRule};
use alarms::parser::parseable::{Parseable, ParserKind};
use alarms::parser::reference::{Reference, ReferenceParser};
use alarms::parser::time::{parse_time, DateSpec, DateTimeSpec, TimeSpec};
use alarms::parser::weekly::WeeklyParser;
use alarms::parser::yearly::{YearlyParser, YearlyRule};
use alarms::parser::{parse_file, parse_with};
use alarms::statics::{alarm_chain, composite_chain, plain_chain};
use alarms::systemd::{
    classify_units_in_dir, normalized_slug, render_alarms, shell_escape, RenderedAlarmUnits,
    RenderedUnit,
};
use std::collections::HashMap;

fn daily(hour: u8, minute: u8) -> Node {
    Node::AlarmSchedule(AlarmSchedule::new(
        Some((TimeSpec::new(hour, minute), DateSpec::zero()).into()),
        RepeatSpec::Daily,
    ))
}

fn definition(title: &str, schedules: Vec<ScheduleDefinition>) -> AlarmDefinition {
    AlarmDefinition {
        title: title.to_string(),
        kind: AlarmType::Default,
        schedules,
    }
}

// ----- dates, times and words -----

#[test]
fn date_day_keeps_only_the_low_byte() {
    let d = helper::parse_date_spec("271").unwrap();
    assert_eq!(d.day, 15);
    assert!(matches!(helper::parse_date_spec("256"), Err(Error::Syntax)));
}

#[test]
fn date_rejects_bad_pieces() {
    assert!(matches!(helper::parse_date_spec("1/13"), Err(Error::Syntax)));
    assert!(matches!(helper::parse_date_spec(""), Err(Error::Syntax)));
    assert!(matches!(helper::parse_date_spec("1/2/3/4"), Err(Error::Syntax)));
    assert!(matches!(helper::parse_date_spec("1//2"), Err(Error::Syntax)));
    assert!(matches!(helper::parse_date_spec("70000"), Err(Error::Syntax)));
    let d = helper::parse_date_spec("+5/+6").unwrap();
    assert_eq!((d.day, d.month, d.year), (5, 6, 0));
}

#[test]
fn time_accepts_signs_and_short_minutes() {
    let t = parse_time("+8:5").unwrap();
    assert_eq!((t.hour, t.minute), (8, 5));
    assert!(matches!(parse_time("a:b"), Err(Error::Syntax)));
    assert!(matches!(parse_time("256:00"), Err(Error::Syntax)));
    assert!(matches!(parse_time("1:2:3"), Err(Error::Syntax)));
    assert!(matches!(parse_time(""), Err(Error::Syntax)));
}

#[test]
fn weekday_and_ordinal_compare_in_lowercase() {
    assert!(matches!(Weekday::new("LUNES"), Some(Weekday::Lunes)));
    assert!(matches!(Weekday::new("Domingo"), Some(Weekday::Domingo)));
    assert!(matches!(Weekday::new("monday"), None));
    assert!(matches!(Ordinal::from_str("ÚLTIMO"), Some(Ordinal::Last)));
    assert!(matches!(Ordinal::from_str("Tercer"), Some(Ordinal::Third)));
    assert!(matches!(Ordinal::from_str("quinto"), None));
    assert_eq!(u8::from(Ordinal::Third), 3);
    assert_eq!(u8::from(Ordinal::Last), 4);
}

#[test]
fn days_insert_adds_only_that_day() {
    let mut days = Days::none();
    assert!(!days.contains(Weekday::Domingo));
    days.insert(Weekday::Domingo);
    days.insert(Weekday::Domingo);
    assert!(days.contains(Weekday::Domingo));
    assert!(!days.contains(Weekday::Sabado));
    assert!(days != Days::none());
}

#[test]
fn schedule_line_variants() {
    assert!(matches!(
        helper::parse_schedule_line("schedule:", ScheduleType::Once),
        Err(Error::Syntax)
    ));
    assert!(helper::parse_schedule_line("notes", ScheduleType::Once)
        .unwrap()
        .is_none());
    let line = helper::parse_schedule_line("  date: Diario   07:00 ", ScheduleType::Daily)
        .unwrap()
        .unwrap();
    assert_eq!(line.parts(), &["07:00"]);
    let line = helper::parse_schedule_line("schedule: 1/2 07:00", ScheduleType::Once)
        .unwrap()
        .unwrap();
    assert_eq!(line.parts(), &["1/2", "07:00"]);
}

#[test]
fn last_unescaped_counts_backslashes_and_bytes() {
    assert_eq!(find_last_unescaped("ñ(a)", '('), Some(2));
    assert_eq!(find_last_unescaped(r"\(x", '('), None);
    assert_eq!(find_last_unescaped(r"\\(x", '('), Some(2));
    assert_eq!(find_last_unescaped("(a)(b)", '('), Some(3));
    assert_eq!(find_last_unescaped("", '('), None);
}

// ----- line parsers -----

#[test]
fn alarm_parser_variants() {
    match AlarmParser.handle("title: Nap (Loud Bell)").unwrap().unwrap() {
        Node::Alarm(alarm) => {
            assert_eq!(alarm.name(), "Nap");
            assert!(matches!(alarm.kind(), AlarmType::Personalized(k) if k == "loud bell"));
        }
        _ => panic!("expected alarm node"),
    }
    match AlarmParser.handle("alarm: Pills (INSISTENT)").unwrap().unwrap() {
        Node::Alarm(alarm) => assert!(matches!(alarm.kind(), AlarmType::Insistent)),
        _ => panic!("expected alarm node"),
    }
    match AlarmParser.handle(r"alarm: Tea \(green\)").unwrap().unwrap() {
        Node::Alarm(alarm) => {
            assert_eq!(alarm.name(), "Tea (green)");
            assert!(matches!(alarm.kind(), AlarmType::Default));
        }
        _ => panic!("expected alarm node"),
    }
    assert!(matches!(AlarmParser.handle("alarm:"), Err(Error::Syntax)));
    assert!(matches!(AlarmParser.handle("alarm: (x)"), Err(Error::Syntax)));
    assert!(matches!(AlarmParser.handle("alarm: Nap ()"), Err(Error::Syntax)));
    assert!(matches!(AlarmParser.handle("alarm: Nap (x) y"), Err(Error::Syntax)));
    assert!(AlarmParser.handle("schedule: daily 08:00").unwrap().is_none());
}

#[test]
fn reference_parser_variants() {
    match ReferenceParser.handle("  - [ ] [[a b]]  ").unwrap().unwrap() {
        Node::Reference(r) => assert_eq!(r.target(), "a b.md"),
        _ => panic!("expected reference node"),
    }
    assert!(ReferenceParser.handle("- [x] [[done]]").unwrap().is_none());
    assert!(ReferenceParser.handle("[[plain]]").unwrap().is_none());
    assert_eq!(Reference::resolve_target("chores"), "chores.md");
}

#[test]
fn weekly_and_monthly_errors() {
    assert!(matches!(
        WeeklyParser.handle("schedule: weekly 06:15"),
        Err(Error::Syntax)
    ));
    assert!(matches!(
        WeeklyParser.handle("schedule: weekly lunes funday 06:15"),
        Err(Error::Syntax)
    ));
    assert!(matches!(
        MonthlyParser.handle("schedule: monthly 15/3 10:00"),
        Err(Error::Syntax)
    ));
    assert!(matches!(
        MonthlyParser.handle("schedule: monthly a b c d"),
        Err(Error::Syntax)
    ));
    assert!(matches!(
        YearlyParser.handle("schedule: yearly 25/12/2030 07:00"),
        Err(Error::Syntax)
    ));
    match MonthlyParser
        .handle("schedule: Mensual segundo Martes 10:00")
        .unwrap()
        .unwrap()
    {
        Node::AlarmSchedule(s) => {
            assert!(matches!(
                s.repeat(),
                RepeatSpec::Monthly(MonthlyRule::NthWeekday(Weekday::Martes, 2))
            ));
        }
        _ => panic!("expected schedule node"),
    }
    assert!(matches!(
        MonthlyRule::nth_weekday(Weekday::Lunes, Ordinal::Last),
        MonthlyRule::NthWeekday(Weekday::Lunes, 4)
    ));
    assert!(matches!(
        YearlyRule::new_day_month(DateSpec::year_agnostic(3, 4)),
        YearlyRule::DayMonth(3, 4)
    ));
}

#[test]
fn date_time_conversions_agree() {
    let a: DateTimeSpec = (DateSpec::new(1, 2, 2030), TimeSpec::new(3, 4)).into();
    let b: DateTimeSpec = (TimeSpec::new(3, 4), DateSpec::new(1, 2, 2030)).into();
    assert_eq!((a.date().day, a.date().month, a.date().year), (1, 2, 2030));
    assert_eq!((b.time().hour, b.time().minute), (3, 4));
    let d = DateSpec::month_and_year_agnostic(9);
    assert_eq!((d.day, d.month, d.year), (9, 0, 0));
}

// ----- chains and files -----

#[test]
fn chains_try_parsers_in_order() {
    assert_eq!(
        alarm_chain(),
        vec![
            ParserKind::Alarm,
            ParserKind::Once,
            ParserKind::Daily,
            ParserKind::Monthly,
            ParserKind::Weekly,
            ParserKind::Yearly
        ]
    );
    assert_eq!(plain_chain(), vec![ParserKind::Reference]);
    assert_eq!(composite_chain().len(), 7);
    assert!(parse_with(&composite_chain(), "   ").unwrap().is_none());
    assert!(parse_with(&plain_chain(), "alarm: x").unwrap().is_none());
    assert!(matches!(
        parse_with(&alarm_chain(), "schedule: weekly 08:00"),
        Err(Error::Syntax)
    ));
    assert!(matches!(
        parse_with(&alarm_chain(), "schedule: daily 08:00").unwrap(),
        Some(Node::AlarmSchedule(_))
    ));
}

#[test]
fn composite_chain_reads_other_lines_as_the_alarm_chain() {
    for line in ["alarm: Wake", "schedule: daily 08:00", "schedule: weekly 08:00", "note"] {
        let a = parse_with(&alarm_chain(), line);
        let c = parse_with(&composite_chain(), line);
        assert_eq!(format!("{:?}", a), format!("{:?}", c));
    }
    assert!(matches!(
        parse_with(&composite_chain(), "- [ ] [[x]]").unwrap(),
        Some(Node::Reference(_))
    ));
}

#[test]
fn well_grouped_nodes_compile_cleanly() {
    let good = vec![
        Node::Alarm(Alarm::new("A", AlarmType::Default)),
        daily(6, 0),
        daily(7, 0),
        Node::Alarm(Alarm::new("B", AlarmType::Default)),
        daily(8, 0),
    ];
    assert!(compile_alarms(&good).is_clean());
    assert!(compile_alarms(&[]).is_clean());
    let trailing = vec![daily(6, 0), Node::Alarm(Alarm::new("A", AlarmType::Default))];
    assert_eq!(compile_alarms(&trailing).errors().len(), 2);
    let last_alone = vec![
        Node::Alarm(Alarm::new("A", AlarmType::Default)),
        daily(6, 0),
        Node::Alarm(Alarm::new("B", AlarmType::Default)),
    ];
    assert!(!compile_alarms(&last_alone).is_clean());
}

#[test]
fn files_are_classified_by_their_first_line() {
    assert!(matches!(classify_file("# My ALARMS\nx"), FileType::Alarm));
    assert!(matches!(classify_file("  Schedule of the week"), FileType::Composite));
    assert!(matches!(classify_file("notes"), FileType::Plain));
    assert!(matches!(classify_file(""), FileType::Plain));
}

#[test]
fn parse_file_collects_nodes_references_and_errors() {
    let input = "# Schedule\r\n- [ ] [[chores]]\r\n\r\nalarm: Wake up\r\nschedule: daily 08:30\r\nschedule: weekly 06:15\n";
    let parsed = parse_file(input);
    assert_eq!(parsed.references().len(), 1);
    assert_eq!(parsed.references()[0].target(), "chores.md");
    assert_eq!(parsed.alarms().len(), 2);
    assert!(matches!(parsed.alarms()[0], Node::Alarm(_)));
    assert!(matches!(parsed.alarms()[1], Node::AlarmSchedule(_)));
    assert!(!parsed.is_clean());
    assert_eq!(parsed.errors().len(), 1);
    assert_eq!(parsed.errors()[0].index(), 5);
    assert_eq!(parsed.errors()[0].line(), "schedule: weekly 06:15");
    assert!(matches!(parsed.errors()[0].error(), Error::Syntax));

    let plain: ParsedFile = "notes\nalarm: ignored\n- [ ] [[x]]".into();
    assert!(plain.is_clean());
    assert_eq!(plain.alarms().len(), 0);
    assert_eq!(plain.references().len(), 1);
}

#[test]
fn parsed_file_splits_references_from_other_nodes() {
    let nodes = vec![
        Node::Reference(Reference::new("a.md".to_string())),
        Node::Alarm(Alarm::new("x", AlarmType::Default)),
        Node::Reference(Reference::new("b.md".to_string())),
    ];
    let parsed = ParsedFile::new(nodes, Vec::new());
    assert_eq!(parsed.references().len(), 2);
    assert_eq!(parsed.references()[1].target(), "b.md");
    assert_eq!(parsed.alarms().len(), 1);
}

// ----- errors -----

#[test]
fn error_messages() {
    assert_eq!(Error::Syntax.message(), "Syntax Error.");
    assert_eq!(Error::Type.message(), "Attempted node method on incorrect type.");
    assert_eq!(
        Error::no_alarm().message(),
        "Compile Error: Schedule Without Alarm."
    );
    assert_eq!(
        Error::reference_not_found("x.md".to_string()).message(),
        "Compile Error: Reference Not Found: x.md"
    );
    let line = LineError::new(3, "bad".to_string(), Error::Syntax);
    assert_eq!(line.message(), "[3] bad: Syntax Error.");
    let nested = Error::parse_in_reference("dir/a.md".to_string(), line);
    assert_eq!(
        nested.message(),
        "Compile Error: Parse in Reference \n[file: dir/a.md]\n[3] bad: Syntax Error."
    );
    assert!(matches!(
        Error::alarm_no_schedule("t".to_string()),
        Error::Compile(CompileError::AlarmWithoutSchedule { .. })
    ));
}

// ----- compiling -----

#[test]
fn compile_accounts_for_every_alarm_and_orphan_schedule() {
    let nodes = vec![
        daily(1, 0),
        daily(2, 0),
        Node::Alarm(Alarm::new("A", AlarmType::Default)),
        Node::Alarm(Alarm::new("B", AlarmType::Default)),
        daily(3, 0),
        Node::Alarm(Alarm::new("C", AlarmType::Default)),
    ];
    let compiled = compile_alarms(&nodes);
    // three alarm nodes and two orphan schedules: five alarms and errors in all
    assert_eq!(compiled.alarms().len() + compiled.errors().len(), 5);
    assert_eq!(compiled.alarms().len(), 1);
    assert_eq!(compiled.alarms()[0].title, "B");
    let messages: Vec<String> = compiled.errors().iter().map(|e| e.message()).collect();
    assert_eq!(
        messages,
        vec![
            "Compile Error: Schedule Without Alarm.",
            "Compile Error: Schedule Without Alarm.",
            "Compile Error: Alarm Without Schedule: A",
            "Compile Error: Alarm Without Schedule: C",
        ]
    );
    for alarm in compiled.alarms() {
        assert!(!alarm.schedules.is_empty());
    }
}

#[test]
fn schedule_without_time_before_any_alarm_is_only_reported() {
    let nodes = vec![
        Node::AlarmSchedule(AlarmSchedule::new(None, RepeatSpec::Daily)),
        Node::Alarm(Alarm::new("A", AlarmType::Default)),
        daily(7, 30),
    ];
    let compiled = compile_alarms(&nodes);
    assert_eq!(compiled.alarms().len(), 1);
    assert_eq!(compiled.alarms()[0].title, "A");
    let messages: Vec<String> = compiled.errors().iter().map(|e| e.message()).collect();
    assert_eq!(messages, vec!["Compile Error: Schedule Without Alarm."]);
}

#[test]
fn schedule_definition_from_schedule() {
    let s = AlarmSchedule::new(
        Some((TimeSpec::new(5, 6), DateSpec::zero()).into()),
        RepeatSpec::Yearly(YearlyRule::DayMonth(1, 2)),
    );
    match ScheduleDefinition::from_schedule(s) {
        ScheduleDefinition::Yearly { rule, time } => {
            assert!(matches!(rule, YearlyRule::DayMonth(1, 2)));
            assert_eq!((time.hour, time.minute), (5, 6));
        }
        _ => panic!("expected yearly schedule"),
    }
}

// ----- rendering -----

#[test]
fn on_calendar_for_each_kind_of_schedule() {
    let mut days = Days::none();
    days.insert(Weekday::Viernes);
    days.insert(Weekday::Lunes);
    let alarms = vec![definition(
        "x",
        vec![
            ScheduleDefinition::Weekly {
                days,
                time: TimeSpec::new(6, 15),
            },
            ScheduleDefinition::Weekly {
                days: Days::none(),
                time: TimeSpec::new(6, 15),
            },
            ScheduleDefinition::Monthly {
                rule: MonthlyRule::DayOfMonth(1),
                time: TimeSpec::new(10, 0),
            },
            ScheduleDefinition::Monthly {
                rule: MonthlyRule::NthWeekday(Weekday::Lunes, 1),
                time: TimeSpec::new(10, 0),
            },
            ScheduleDefinition::Yearly {
                rule: YearlyRule::DayMonth(25, 12),
                time: TimeSpec::new(7, 30),
            },
            ScheduleDefinition::Yearly {
                rule: YearlyRule::NthWeekday(Weekday::Domingo, 4),
                time: TimeSpec::new(23, 59),
            },
            ScheduleDefinition::Once {
                at: (DateSpec::new(1, 1, 7), TimeSpec::new(0, 0)).into(),
            },
        ],
    )];
    let rendered = render_alarms(&alarms, "/bin/alarm");
    let calendars: Vec<&str> = rendered[0]
        .timers
        .iter()
        .map(|t| {
            t.contents
                .lines()
                .find(|l| l.starts_with("OnCalendar="))
                .unwrap()
        })
        .collect();
    assert_eq!(
        calendars,
        vec![
            "OnCalendar=Mon,Fri *-*-* 06:15:00",
            "OnCalendar=*-*-* 06:15:00",
            "OnCalendar=*-*-01 10:00:00",
            "OnCalendar=Mon *-*~1..* 10:00:00",
            "OnCalendar=*-12-25 07:30:00",
            "OnCalendar=Sun *-*-*~4 23:59:00",
            "OnCalendar=0007-01-01 00:00:00",
        ]
    );
    let names: Vec<&str> = rendered[0].timers.iter().map(|t| t.name.as_str()).collect();
    assert_eq!(names[0], "alarm-x-1.timer");
    assert_eq!(names[6], "alarm-x-7.timer");
}

#[test]
fn service_and_timer_contents_are_exact() {
    let alarms = vec![AlarmDefinition {
        title: "Bob's nap".to_string(),
        kind: AlarmType::Personalized("Soft".to_string()),
        schedules: vec![ScheduleDefinition::Daily {
            time: TimeSpec::new(8, 5),
        }],
    }];
    let rendered = render_alarms(&alarms, "/bin/a");
    assert_eq!(rendered[0].service.name, "alarm-bobs-nap.service");
    assert_eq!(
        rendered[0].service.contents,
        "[Unit]\nDescription=Alarm: Bob's nap\n\n[Service]\nType=oneshot\nExecStart=/bin/a fire --title 'Bob'\\''s nap' --kind 'soft'\n"
    );
    assert_eq!(
        rendered[0].timers[0].contents,
        "[Unit]\nDescription=Timer for alarm: Bob's nap\n\n[Timer]\nUnit=alarm-bobs-nap.service\nOnCalendar=*-*-* 08:05:00\nPersistent=true\n\n[Install]\nWantedBy=timers.target\n"
    );
}

#[test]
fn colliding_slugs_get_distinct_names_and_unique_ones_none() {
    let alarms = vec![
        definition("A b", vec![]),
        definition("Other", vec![]),
        definition("a-B", vec![]),
        definition("a_b", vec![]),
    ];
    let rendered = render_alarms(&alarms, "/bin/alarm");
    let names: Vec<&str> = rendered.iter().map(|r| r.service.name.as_str()).collect();
    assert_eq!(
        names,
        vec![
            "alarm-a-b-dup1.service",
            "alarm-other.service",
            "alarm-a-b-dup2.service",
            "alarm-a-b-dup3.service",
        ]
    );
}

#[test]
fn every_unit_name_is_distinct_without_dup_slugs() {
    let two = vec![
        ScheduleDefinition::Daily { time: TimeSpec::new(6, 0) },
        ScheduleDefinition::Daily { time: TimeSpec::new(7, 0) },
    ];
    let alarms = vec![
        definition("Wake", two.clone()),
        definition("wake", two.clone()),
        definition("Wake 2", two.clone()),
        definition("Other", two),
    ];
    let rendered = render_alarms(&alarms, "/bin/alarm");
    let mut names: Vec<String> = Vec::new();
    for r in &rendered {
        names.push(r.service.name.clone());
        for t in &r.timers {
            names.push(t.name.clone());
        }
    }
    assert_eq!(names.len(), 12);
    let mut sorted = names.clone();
    sorted.sort();
    sorted.dedup();
    assert_eq!(sorted.len(), 12);
    assert!(names.contains(&"alarm-wake-dup2-1.timer".to_string()));
    assert!(names.contains(&"alarm-wake-2-1.timer".to_string()));
}

#[test]
fn plain_files_are_always_clean() {
    let parsed = parse_file("# Notes\nanything at all\n- [ ] [[a]]\nalarm: not read here\n");
    assert!(parsed.is_clean());
    assert_eq!(parsed.references().len(), 1);
    assert!(parsed.alarms().is_empty());
}

#[test]
fn slugs_and_quotes_have_their_shape() {
    assert_eq!(normalized_slug("  --Hello__World--  "), "hello-world");
    assert_eq!(normalized_slug(""), "unnamed");
    assert_eq!(normalized_slug("a - b"), "a-b");
    assert_eq!(shell_escape(""), "''");
    assert_eq!(shell_escape("''"), "''\\'''\\'''");
}

#[test]
fn stale_units_come_out_sorted() {
    let rendered = vec![RenderedAlarmUnits {
        service: RenderedUnit {
            name: "alarm-keep.service".into(),
            contents: String::new(),
        },
        timers: vec![],
    }];
    let entries = vec![
        "alarm-z.timer",
        "alarm-b.service",
        "alarm-a.timer",
        "alarm-keep.service",
        "alarm-a.service",
        "alarm-m.timer",
    ];
    let (timers, services) = classify_units_in_dir(&rendered, entries);
    assert_eq!(timers, vec!["alarm-a.timer", "alarm-m.timer", "alarm-z.timer"]);
    assert_eq!(services, vec!["alarm-a.service", "alarm-b.service"]);
}

// ----- expanding references -----

fn expand_with(files: &HashMap<String, String>, root: &str) -> (Vec<Node>, Vec<Error>, Vec<String>) {
    let parsed = parse_file(files.get(root).unwrap());
    let mut expander = Expander::new(parsed, root.to_string(), vec![root.to_string()]);
    let mut reads = Vec::new();
    loop {
        match expander.next_action() {
            ExpandAction::Read(path) => {
                reads.push(path.clone());
                expander.feed(files.get(&path).cloned());
            }
            ExpandAction::Done => break,
        }
    }
    let (nodes, errors) = expander.finish();
    (nodes, errors, reads)
}

#[test]
fn expansion_follows_references_once_per_path() {
    let mut files = HashMap::new();
    files.insert(
        "dir/root.md".to_string(),
        "# Schedule\n- [ ] [[a]]\nalarm: Root\nschedule: daily 08:00\n- [ ] [[b]]\n- [ ] [[missing]]\n".to_string(),
    );
    files.insert(
        "dir/a.md".to_string(),
        "# Schedule\nalarm: A\nschedule: daily 09:00\n- [ ] [[root]]\n- [ ] [[a]]\n".to_string(),
    );
    files.insert(
        "dir/b.md".to_string(),
        "# Alarms\nalarm: B\nschedule: weekly 10:00\n".to_string(),
    );
    let (nodes, errors, reads) = expand_with(&files, "dir/root.md");
    assert_eq!(reads, vec!["dir/a.md", "dir/b.md", "dir/missing.md"]);
    let titles: Vec<String> = nodes
        .iter()
        .filter_map(|n| match n {
            Node::Alarm(a) => Some(a.name().to_string()),
            _ => None,
        })
        .collect();
    assert_eq!(titles, vec!["Root", "A"]);
    assert_eq!(nodes.len(), 4);
    let messages: Vec<String> = errors.iter().map(|e| e.message()).collect();
    assert_eq!(
        messages,
        vec![
            "Compile Error: Parse in Reference \n[file: dir/b.md]\n[2] schedule: weekly 10:00: Syntax Error.",
            "Compile Error: Reference Not Found: dir/missing.md",
        ]
    );
}

#[test]
fn expansion_without_references_is_done_at_once() {
    let parsed = parse_file("# Alarms\nalarm: X\nschedule: daily 08:00");
    let mut expander = Expander::new(parsed, "x.md".to_string(), vec!["x.md".to_string()]);
    assert!(matches!(expander.next_action(), ExpandAction::Done));
    expander.feed(Some("ignored".to_string()));
    let (nodes, errors) = expander.finish();
    assert_eq!(nodes.len(), 2);
    assert!(errors.is_empty());
}

// ----- firing -----

#[test]
fn fire_arguments_edge_cases() {
    let s = |v: Vec<&str>| v.into_iter().map(String::from).collect::<Vec<String>>();
    assert_eq!(
        parse_fire_args(s(vec!["--kind", "k"])).unwrap_err(),
        "missing --title"
    );
    assert_eq!(
        parse_fire_args(s(vec!["--title", "t", "--kind"])).unwrap_err(),
        "--kind requires a value"
    );
    let a = parse_fire_args(s(vec!["--kind", "a", "--title", "t", "--kind", "b"])).unwrap();
    assert_eq!((a.title.as_str(), a.kind.as_str()), ("t", "b"));
    assert_eq!(
        parse_fire_args(s(vec!["x"])).unwrap_err(),
        "unknown fire arg: x"
    );
}

#[test]
fn kind_path_needs_home() {
    assert_eq!(resolve_kind_path("k", None).unwrap_err(), "HOME is not set");
    assert_eq!(resolve_kind_path("..", None).unwrap_err(), "invalid kind name");
    assert_eq!(
        resolve_kind_path("k", Some("/h".to_string())).unwrap(),
        "/h/.config/alarms/kinds/k.json"
    );
}

fn config(media: Option<MediaConfig>, notification: Option<NotificationConfig>, snooze: Option<SnoozeConfig>) -> AlarmKindConfig {
    AlarmKindConfig { media, notification, snooze }
}

#[test]
fn dialog_status_decides_the_action() {
    assert!(matches!(action_for_status(Some(0)), Ok(AlarmAction::Dismiss)));
    assert!(matches!(action_for_status(Some(1)), Ok(AlarmAction::Snooze)));
    assert!(matches!(action_for_status(Some(5)), Ok(AlarmAction::Snooze)));
    assert_eq!(
        action_for_status(Some(3)).err().unwrap(),
        "zenity exited with unexpected status Some(3)"
    );
    assert_eq!(
        action_for_status(Some(-2)).err().unwrap(),
        "zenity exited with unexpected status Some(-2)"
    );
    assert_eq!(
        action_for_status(None).err().unwrap(),
        "zenity exited with unexpected status None"
    );
}

#[test]
fn question_text_joins_summary_and_body() {
    let n = |enabled, summary: Option<&str>, body: Option<&str>| NotificationConfig {
        enabled,
        summary: summary.map(String::from),
        body: body.map(String::from),
    };
    assert!(question("t", &config(None, None, None)).is_none());
    assert!(question("t", &config(None, Some(n(false, Some("s"), None)), None)).is_none());
    assert_eq!(
        question("t", &config(None, Some(n(true, Some("s"), Some("b"))), None)),
        Some(("Alarm: t".to_string(), "s\n\nb".to_string()))
    );
    assert_eq!(
        question("t", &config(None, Some(n(true, None, Some("b"))), None)).unwrap().1,
        "b"
    );
    assert_eq!(
        question("t", &config(None, Some(n(true, Some(""), None)), None)).unwrap().1,
        ""
    );
}

#[test]
fn media_commands_per_backend() {
    let m = |backend| MediaConfig {
        source: "song.mp3".to_string(),
        backend,
    };
    assert!(media_command(&config(None, None, None)).is_none());
    let (program, args) = media_command(&config(Some(m(AudioBackend::Mpv)), None, None)).unwrap();
    assert_eq!(program, "mpv");
    assert_eq!(
        args,
        vec!["--no-video", "--loop-file=inf", "--really-quiet", "--ytdl-format=bestaudio", "song.mp3"]
    );
    let (program, args) =
        media_command(&config(Some(m(AudioBackend::XdgOpen)), None, None)).unwrap();
    assert_eq!(program, "xdg-open");
    assert_eq!(args, vec!["song.mp3"]);
}

#[test]
fn snoozing_rings_at_most_count_times() {
    let s = |count| Some(SnoozeConfig {
        count,
        interval_seconds: 30,
    });
    assert_eq!(next_snooze(&config(None, None, None), 1), None);
    assert_eq!(next_snooze(&config(None, None, s(3)), 1), Some(30));
    assert_eq!(next_snooze(&config(None, None, s(3)), 2), Some(30));
    assert_eq!(next_snooze(&config(None, None, s(3)), 3), None);
    assert_eq!(next_snooze(&config(None, None, s(0)), 1), None);
    assert_eq!(alarms::fire::default_audio_backend(), AudioBackend::Mpv);
    assert!(alarms::fire::default_true());
}

#[test]
fn kind_text_is_lowercase() {
    assert_eq!(AlarmType::Default.kind_text(), "default");
    assert_eq!(AlarmType::Insistent.kind_text(), "insistent");
    assert_eq!(AlarmType::Important.kind_text(), "important");
    assert_eq!(AlarmType::Personalized("Ring Ring".to_string()).kind_text(), "ring ring");
}
