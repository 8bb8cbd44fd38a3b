//! What happens when an alarm fires: its arguments, its kind's configuration, and the
//! decisions around playing media, asking the user and snoozing. The processes, the
//! dialog and the waiting are the caller's.
use vstd::prelude::*;
use crate::expand::{path_join_of, string_views};
use crate::text::{chars_of, contains_seq, push_dec, push_str, span_eq};

verus! {

/// The configuration of a kind of alarm.
pub struct AlarmKindConfig {
    pub media: Option<MediaConfig>,
    pub notification: Option<NotificationConfig>,
    pub snooze: Option<SnoozeConfig>,
}

/// The audio backend used where the configuration names none.
pub fn default_audio_backend() -> (r: AudioBackend)
    ensures
        r == AudioBackend::Mpv,
{
    AudioBackend::Mpv
}

#[derive(Debug)]
pub struct MediaConfig {
    pub source: String,
    pub backend: AudioBackend,
}

#[derive(Debug, Clone, Copy, PartialEq, Eq, Structural)]
pub enum AudioBackend {
    Mpv,
    XdgOpen,
}

#[derive(Debug, Clone, Copy)]
pub enum NotificationLevel {
    Info,
    Warning,
    Error,
}

#[derive(Debug)]
pub struct NotificationConfig {
    pub enabled: bool,
    pub summary: Option<String>,
    pub body: Option<String>,
}

#[derive(Debug, Clone, Copy)]
pub enum NotificationUrgency {
    Low,
    Normal,
    Critical,
}

/// Whether a notification is enabled where the configuration does not say.
pub fn default_true() -> (r: bool)
    ensures
        r,
{
    true
}

pub struct SnoozeConfig {
    pub count: u32,
    pub interval_seconds: u64,
}

#[derive(Debug)]
pub struct FireArgs {
    pub title: String,
    pub kind: String,
}

/// What the arguments `--title T --kind K` (in any order, the last of each winning) give:
/// the title and the kind, or the message of the first problem.
pub open spec fn fire_args_from(
    args: Seq<Seq<char>>,
    title: Option<Seq<char>>,
    kind: Option<Seq<char>>,
) -> Result<(Seq<char>, Seq<char>), Seq<char>>
    decreases args.len(),
{
    if args.len() == 0 {
        match (title, kind) {
            (None, _) => Err("missing --title"@),
            (Some(_), None) => Err("missing --kind"@),
            (Some(t), Some(k)) => Ok((t, k)),
        }
    } else if args[0] == "--title"@ {
        if args.len() < 2 {
            Err("--title requires a value"@)
        } else {
            fire_args_from(args.skip(2), Some(args[1]), kind)
        }
    } else if args[0] == "--kind"@ {
        if args.len() < 2 {
            Err("--kind requires a value"@)
        } else {
            fire_args_from(args.skip(2), title, Some(args[1]))
        }
    } else {
        Err("unknown fire arg: "@ + args[0])
    }
}

pub open spec fn fire_args_result(r: Result<FireArgs, String>, m: Result<(Seq<char>, Seq<char>), Seq<char>>) -> bool {
    match m {
        Ok((t, k)) => r matches Ok(a) && a.title@ == t && a.kind@ == k,
        Err(e) => r matches Err(x) && x@ == e,
    }
}

fn is_word(s: &String, w: &str) -> (r: bool)
    ensures
        r == (s@ == w@),
{
    let v = chars_of(s.as_str());
    let n = v.len();
    assert(v@.subrange(0, n as int) =~= v@);
    span_eq(&v, 0, n, w)
}

fn text_of(s: &str) -> (r: String)
    ensures
        r@ == s@,
{
    s.to_string()
}

/// The title and kind that the arguments of `fire` give.
pub fn parse_fire_args(args: Vec<String>) -> (r: Result<FireArgs, String>)
    ensures
        fire_args_result(r, fire_args_from(string_views(args@), None, None)),
{
    let ghost all = string_views(args@);
    let mut title: Option<String> = None;
    let mut kind: Option<String> = None;
    let mut i: usize = 0;
    assert(all.skip(0) =~= all);
    while i < args.len()
        invariant
            i <= args@.len(),
            all == string_views(args@),
            fire_args_from(all.skip(i as int), crate::expand::option_text(title), crate::expand::option_text(kind))
                == fire_args_from(all, None, None),
        decreases args@.len() - i,
    {
        let ghost rest = all.skip(i as int);
        assert(rest[0] == args@[i as int]@);
        if is_word(&args[i], "--title") {
            if i + 1 >= args.len() {
                return Err(text_of("--title requires a value"));
            }
            assert(rest[1] == args@[i + 1]@);
            title = Some(args[i + 1].clone());
            assert(rest.skip(2) =~= all.skip(i + 2));
            i = i + 2;
        } else if is_word(&args[i], "--kind") {
            if i + 1 >= args.len() {
                return Err(text_of("--kind requires a value"));
            }
            assert(rest[1] == args@[i + 1]@);
            kind = Some(args[i + 1].clone());
            assert(rest.skip(2) =~= all.skip(i + 2));
            i = i + 2;
        } else {
            let mut msg = text_of("unknown fire arg: ");
            push_str(&mut msg, args[i].as_str());
            return Err(msg);
        }
    }
    assert(all.skip(i as int) =~= Seq::<Seq<char>>::empty());
    let title = match title {
        Some(t) => t,
        None => {
            return Err(text_of("missing --title"));
        },
    };
    let kind = match kind {
        Some(k) => k,
        None => {
            return Err(text_of("missing --kind"));
        },
    };
    Ok(FireArgs { title, kind })
}

/// Whether a kind name is refused: it holds a path separator, or is `.` or `..`.
pub open spec fn invalid_kind_name(kind: Seq<char>) -> bool {
    contains_seq(kind, "/"@) || contains_seq(kind, "\\"@) || kind == "."@ || kind == ".."@
}

/// The path of the configuration of a kind: `kinds/KIND.json` under `.config/alarms` in
/// the home directory.
pub open spec fn kind_path_of(home: Seq<char>, kind: Seq<char>) -> Seq<char> {
    path_join_of(
        path_join_of(path_join_of(path_join_of(home, ".config"@), "alarms"@), "kinds"@),
        kind + ".json"@,
    )
}

/// The path of the configuration file of the kind `kind`, given the home directory (or
/// `None` where `HOME` is not set).
pub fn resolve_kind_path(kind: &str, home: Option<String>) -> (r: Result<String, String>)
    ensures
        invalid_kind_name(kind@) ==> (r matches Err(e) && e@ == "invalid kind name"@),
        !invalid_kind_name(kind@) ==> match home {
            None => r matches Err(e) && e@ == "HOME is not set"@,
            Some(h) => r matches Ok(p) && p@ == kind_path_of(h@, kind@),
        },
{
    let v = chars_of(kind);
    let n = v.len();
    assert(v@.subrange(0, n as int) =~= v@);
    if crate::text::contains_str(&v, "/") || crate::text::contains_str(&v, "\\") || span_eq(
        &v,
        0,
        n,
        ".",
    ) || span_eq(&v, 0, n, "..") {
        return Err(text_of("invalid kind name"));
    }
    let home = match home {
        Some(h) => h,
        None => {
            return Err(text_of("HOME is not set"));
        },
    };
    let a = crate::expand::path_join(home.as_str(), ".config");
    let b = crate::expand::path_join(a.as_str(), "alarms");
    let c = crate::expand::path_join(b.as_str(), "kinds");
    let mut file = text_of(kind);
    push_str(&mut file, ".json");
    Ok(crate::expand::path_join(c.as_str(), file.as_str()))
}

/// The program and arguments that play the media of a kind.
pub open spec fn media_command_of(source: Seq<char>, backend: AudioBackend) -> (Seq<char>, Seq<Seq<char>>) {
    match backend {
        AudioBackend::Mpv => (
            "mpv"@,
            seq![
                "--no-video"@,
                "--loop-file=inf"@,
                "--really-quiet"@,
                "--ytdl-format=bestaudio"@,
                source,
            ],
        ),
        AudioBackend::XdgOpen => ("xdg-open"@, seq![source]),
    }
}

/// The command that plays the media of a kind, if it has media.
pub fn media_command(config: &AlarmKindConfig) -> (r: Option<(String, Vec<String>)>)
    ensures
        match config.media {
            None => r is None,
            Some(m) => r matches Some((p, a)) && (p@, string_views(a@)) == media_command_of(
                m.source@,
                m.backend,
            ),
        },
{
    let media = match &config.media {
        Some(m) => m,
        None => {
            return None;
        },
    };
    match media.backend {
        AudioBackend::Mpv => {
            let args = vec![
                text_of("--no-video"),
                text_of("--loop-file=inf"),
                text_of("--really-quiet"),
                text_of("--ytdl-format=bestaudio"),
                media.source.clone(),
            ];
            assert(string_views(args@) =~= media_command_of(media.source@, media.backend).1);
            Some((text_of("mpv"), args))
        },
        AudioBackend::XdgOpen => {
            let args = vec![media.source.clone()];
            assert(string_views(args@) =~= media_command_of(media.source@, media.backend).1);
            Some((text_of("xdg-open"), args))
        },
    }
}

pub enum AlarmAction {
    Dismiss,
    Snooze,
}

/// The text of the question: the summary and the body, with an empty line between
/// them where both are given.
pub open spec fn notification_text_of(summary: Seq<char>, body: Seq<char>) -> Seq<char> {
    if summary.len() != 0 && body.len() != 0 {
        summary + "\n\n"@ + body
    } else if summary.len() != 0 {
        summary
    } else {
        body
    }
}

pub open spec fn or_empty(s: Option<String>) -> Seq<char> {
    match s {
        Some(x) => x@,
        None => seq![],
    }
}

/// The question to ask the user when an alarm fires: its title argument and its text.
/// `None` where no question is asked (no notification, or a disabled one): the alarm is
/// then snoozed.
pub fn question(title: &str, config: &AlarmKindConfig) -> (r: Option<(String, String)>)
    ensures
        match config.notification {
            Some(n) if n.enabled => r matches Some((t, x)) && t@ == "Alarm: "@ + title@ && x@
                == notification_text_of(or_empty(n.summary), or_empty(n.body)),
            _ => r is None,
        },
{
    let notif = match &config.notification {
        Some(n) => n,
        None => {
            return None;
        },
    };
    if !notif.enabled {
        return None;
    }
    let summary = match &notif.summary {
        Some(s) => s.clone(),
        None => String::new(),
    };
    let body = match &notif.body {
        Some(b) => b.clone(),
        None => String::new(),
    };
    let text = if !summary.as_str().is_empty() && !body.as_str().is_empty() {
        let mut t = summary.clone();
        push_str(&mut t, "\n\n");
        push_str(&mut t, body.as_str());
        t
    } else if !summary.as_str().is_empty() {
        summary
    } else {
        body
    };
    let mut head = text_of("Alarm: ");
    push_str(&mut head, title);
    Some((head, text))
}

/// The text of an exit code as `{:?}` shows an `Option<i32>`.
pub open spec fn code_text(code: Option<i32>) -> Seq<char> {
    match code {
        None => "None"@,
        Some(c) => "Some("@ + (if c < 0 {
            "-"@ + crate::text::dec((-c) as nat)
        } else {
            crate::text::dec(c as nat)
        }) + ")"@,
    }
}

/// What the dialog's exit code means: 0 dismisses, 1 and 5 (timeout) snooze.
pub fn action_for_status(code: Option<i32>) -> (r: Result<AlarmAction, String>)
    ensures
        code == Some(0i32) ==> r matches Ok(AlarmAction::Dismiss),
        code == Some(1i32) || code == Some(5i32) ==> r matches Ok(AlarmAction::Snooze),
        code != Some(0i32) && code != Some(1i32) && code != Some(5i32) ==> (r matches Err(e)
            && e@ == "zenity exited with unexpected status "@ + code_text(code)),
{
    match code {
        Some(0) => Ok(AlarmAction::Dismiss),
        Some(1) => Ok(AlarmAction::Snooze),
        Some(5) => Ok(AlarmAction::Snooze),
        other => {
            let mut msg = text_of("zenity exited with unexpected status ");
            match other {
                None => push_str(&mut msg, "None"),
                Some(c) => {
                    push_str(&mut msg, "Some(");
                    if c < 0 {
                        push_str(&mut msg, "-");
                        let m: i64 = -(c as i64);
                        push_dec(&mut msg, m as u64);
                    } else {
                        push_dec(&mut msg, c as u64);
                    }
                    push_str(&mut msg, ")");
                },
            }
            assert(msg@ =~= "zenity exited with unexpected status "@ + code_text(code));
            Err(msg)
        },
    }
}

/// How many times an alarm rings at most: once, and with snoozing as many times as the
/// snooze count says (at least once).
pub open spec fn rounds_of(config: AlarmKindConfig) -> nat {
    match config.snooze {
        None => 1,
        Some(s) => if s.count >= 1 {
            s.count as nat
        } else {
            1
        },
    }
}

/// After `done` rounds that ended in snoozing, the seconds to wait before ringing again,
/// or `None` when the alarm is over.
pub fn next_snooze(config: &AlarmKindConfig, done: u32) -> (r: Option<u64>)
    ensures
        match config.snooze {
            Some(s) if done < rounds_of(*config) => r == Some(s.interval_seconds),
            _ => r is None,
        },
{
    match &config.snooze {
        None => None,
        Some(s) => {
            let rounds = if s.count >= 1 {
                s.count
            } else {
                1
            };
            if done < rounds {
                Some(s.interval_seconds)
            } else {
                None
            }
        },
    }
}


/// The question shows every part that is given: it opens with the summary and ends
/// with the body, adds at most a blank line between them, and is empty only where both
/// are.
pub proof fn lemma_question_text_holds_summary_and_body(summary: Seq<char>, body: Seq<char>)
    ensures
        ({
            let t = notification_text_of(summary, body);
            &&& summary.len() <= t.len()
            &&& t.take(summary.len() as int) == summary
            &&& body.len() <= t.len()
            &&& t.skip(t.len() - body.len()) == body
            &&& t.len() <= summary.len() + body.len() + 2
            &&& (t.len() == 0 <==> summary.len() == 0 && body.len() == 0)
        }),
{
    reveal_strlit("\n\n");
    let t = notification_text_of(summary, body);
    if summary.len() != 0 && body.len() != 0 {
        assert(t.take(summary.len() as int) =~= summary);
        assert(t.skip(t.len() - body.len()) =~= body);
    } else if summary.len() != 0 {
        assert(t.take(summary.len() as int) =~= summary);
        assert(t.skip(t.len() - body.len()) =~= body);
    } else {
        assert(t.take(summary.len() as int) =~= summary);
        assert(t.skip(t.len() - body.len()) =~= body);
    }
}

} // verus!
