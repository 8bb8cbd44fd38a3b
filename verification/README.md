# alarms

A scheduler that turns alarms written in Markdown files into systemd user units.

A main file (`MAIN_SCHEDULER`, by default `../Events.md`) lists alarms and their
schedules, and may reference other files with `- [ ] [[name]]` lines:

```
# Schedule
- [ ] [[chores]]
alarm: Wake up (important)
schedule: daily 08:30
schedule: weekly lunes viernes 06:15
schedule: monthly primer lunes 10:00
schedule: yearly 25/12 07:00
schedule: 15/7/2027 09:45
```

Running the program with no argument parses the files, compiles the alarms, renders
one service unit per alarm and one timer unit per schedule, removes stale units and
enables the timers. `fire --title T --kind K` is what a service runs when its timer
fires: it plays the media of the kind, asks whether to dismiss or snooze, and snoozes
as the kind's configuration (`~/.config/alarms/kinds/K.json`) says.

`YearlyRule` has a variant `NthWeekday(weekday, n)` beside `DayMonth(day, month)`: the
renderer turns it into a calendar expression, but the yearly line grammar only ever
gives `DayMonth`.

## Layout

- `src/` is the library, verified with Verus:
  - `text` models strings as `Seq<char>` (trimming, splitting, lines, numbers) and
    proves its helpers against that model;
  - `parser` holds the line parsers and the parsing of whole files, each with a
    specification of what it gives for a line;
  - `compile` turns parsed nodes into alarm definitions, `expand` follows references
    across files (the caller reads the files it asks for);
  - `systemd` renders units and picks the stale ones; `fire` holds the decisions made
    when an alarm fires; `errors` the errors and their messages.
- `app/` is the program around it: arguments, files, environment, processes.
- `tests/` runs the library on concrete inputs.
