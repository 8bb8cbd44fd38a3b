//! Compiling the parsed nodes of a file into alarm definitions.
use vstd::prelude::*;
use crate::errors;
use crate::errors::ErrorView;
use crate::parser::{alarm, helper, monthly, time, yearly};
use crate::parser::alarm::{AlarmTypeView, ScheduleView};
use crate::parser::file::node_views;
use crate::parser::helper::{NodeView, RepeatView, Weekday};

verus! {

/// The alarms that a file defines, and the errors found while compiling it.
#[derive(Debug)]
pub struct CompiledFile {
    alarms: Vec<AlarmDefinition>,
    errors: Vec<errors::Error>,
}

#[derive(Debug)]
pub struct AlarmDefinition {
    pub title: String,
    pub kind: alarm::AlarmType,
    pub schedules: Vec<ScheduleDefinition>,
}

#[derive(Debug, Clone, Copy)]
#[allow(inconsistent_fields)]
pub enum ScheduleDefinition {
    Once { at: time::DateTimeSpec },
    Daily { time: time::TimeSpec },
    Weekly { days: helper::Days, time: time::TimeSpec },
    Monthly { rule: monthly::MonthlyRule, time: time::TimeSpec },
    Yearly { rule: yearly::YearlyRule, time: time::TimeSpec },
}

/// The abstract value of a [`ScheduleDefinition`].
pub enum ScheduleDefView {
    Once(time::DateSpec, time::TimeSpec),
    Daily(time::TimeSpec),
    Weekly(Set<Weekday>, time::TimeSpec),
    Monthly(monthly::MonthlyRule, time::TimeSpec),
    Yearly(yearly::YearlyRule, time::TimeSpec),
}

impl View for ScheduleDefinition {
    type V = ScheduleDefView;

    open spec fn view(&self) -> ScheduleDefView {
        match *self {
            ScheduleDefinition::Once { at } => ScheduleDefView::Once(at@.0, at@.1),
            ScheduleDefinition::Daily { time } => ScheduleDefView::Daily(time),
            ScheduleDefinition::Weekly { days, time } => ScheduleDefView::Weekly(days@, time),
            ScheduleDefinition::Monthly { rule, time } => ScheduleDefView::Monthly(rule, time),
            ScheduleDefinition::Yearly { rule, time } => ScheduleDefView::Yearly(rule, time),
        }
    }
}

/// The abstract value of an [`AlarmDefinition`].
pub struct AlarmDefView {
    pub title: Seq<char>,
    pub kind: AlarmTypeView,
    pub schedules: Seq<ScheduleDefView>,
}

pub open spec fn schedule_views(s: Seq<ScheduleDefinition>) -> Seq<ScheduleDefView> {
    s.map_values(|d: ScheduleDefinition| d@)
}

impl View for AlarmDefinition {
    type V = AlarmDefView;

    open spec fn view(&self) -> AlarmDefView {
        AlarmDefView {
            title: self.title@,
            kind: self.kind@,
            schedules: schedule_views(self.schedules@),
        }
    }
}

pub open spec fn definition_views(s: Seq<AlarmDefinition>) -> Seq<AlarmDefView> {
    s.map_values(|d: AlarmDefinition| d@)
}

pub open spec fn error_views(s: Seq<errors::Error>) -> Seq<ErrorView> {
    s.map_values(|e: errors::Error| e@)
}

/// The abstract value of a [`CompiledFile`].
pub struct CompiledView {
    pub alarms: Seq<AlarmDefView>,
    pub errors: Seq<ErrorView>,
}

impl View for CompiledFile {
    type V = CompiledView;

    closed spec fn view(&self) -> CompiledView {
        CompiledView { alarms: definition_views(self.alarms@), errors: error_views(self.errors@) }
    }
}

impl CompiledFile {
    pub fn new(alarms: Vec<AlarmDefinition>, errors: Vec<errors::Error>) -> (r: Self)
        ensures
            r@.alarms == definition_views(alarms@),
            r@.errors == error_views(errors@),
    {
        Self { alarms, errors }
    }

    pub fn alarms(&self) -> (r: &[AlarmDefinition])
        ensures
            definition_views(r@) == self@.alarms,
    {
        self.alarms.as_slice()
    }

    pub fn errors(&self) -> (r: &[errors::Error])
        ensures
            error_views(r@) == self@.errors,
    {
        self.errors.as_slice()
    }

    pub fn is_clean(&self) -> (r: bool)
        ensures
            r == (self@.errors.len() == 0),
    {
        self.errors.len() == 0
    }
}

/// The schedule definition that a schedule stands for; a schedule without a date and
/// time stands for none.
pub open spec fn definition_of(s: ScheduleView) -> ScheduleDefView
    recommends
        s.at is Some,
{
    let (d, t) = s.at->0;
    match s.repeat {
        RepeatView::Never => ScheduleDefView::Once(d, t),
        RepeatView::Daily => ScheduleDefView::Daily(t),
        RepeatView::Weekly(days) => ScheduleDefView::Weekly(days, t),
        RepeatView::Monthly(rule) => ScheduleDefView::Monthly(rule, t),
        RepeatView::Yearly(rule) => ScheduleDefView::Yearly(rule, t),
    }
}

impl ScheduleDefinition {
    /// The definition of a schedule, which must carry its date and time.
    pub fn from_schedule(schedule: alarm::AlarmSchedule) -> (r: Self)
        requires
            schedule@.at is Some,
        ensures
            r@ == definition_of(schedule@),
    {
        let at = match schedule.at() {
            Some(at) => at,
            None => {
                proof {
                    assert(false);
                }
                return ScheduleDefinition::Daily { time: time::TimeSpec::new(0, 0) };
            },
        };
        match schedule.repeat() {
            helper::RepeatSpec::Never => Self::Once { at },
            helper::RepeatSpec::Daily => Self::Daily { time: at.time() },
            helper::RepeatSpec::Weekly(days) => Self::Weekly { days, time: at.time() },
            helper::RepeatSpec::Monthly(rule) => Self::Monthly { rule, time: at.time() },
            helper::RepeatSpec::Yearly(rule) => Self::Yearly { rule, time: at.time() },
        }
    }
}

/// The state of compiling: the alarms and errors so far, and the alarm whose schedules
/// are being collected.
pub struct CompileState {
    pub alarms: Seq<AlarmDefView>,
    pub errors: Seq<ErrorView>,
    pub pending: Option<AlarmDefView>,
}

/// Closes the pending alarm: it becomes an alarm if it has schedules, else an error.
pub open spec fn flush(st: CompileState) -> CompileState {
    match st.pending {
        None => st,
        Some(p) => if p.schedules.len() == 0 {
            CompileState {
                alarms: st.alarms,
                errors: st.errors.push(ErrorView::AlarmWithoutSchedule(p.title)),
                pending: None,
            }
        } else {
            CompileState { alarms: st.alarms.push(p), errors: st.errors, pending: None }
        },
    }
}

/// One node: an alarm closes the pending one and opens itself; a schedule joins the
/// pending alarm, or is an error where there is none.
pub open spec fn step(st: CompileState, n: NodeView) -> CompileState {
    match n {
        NodeView::Alarm(name, kind) => {
            let f = flush(st);
            CompileState {
                alarms: f.alarms,
                errors: f.errors,
                pending: Some(AlarmDefView { title: name, kind, schedules: seq![] }),
            }
        },
        NodeView::AlarmSchedule(s) => match st.pending {
            None => CompileState {
                alarms: st.alarms,
                errors: st.errors.push(ErrorView::ScheduleWithoutAlarm),
                pending: None,
            },
            Some(p) => CompileState {
                alarms: st.alarms,
                errors: st.errors,
                pending: Some(
                    AlarmDefView {
                        title: p.title,
                        kind: p.kind,
                        schedules: p.schedules.push(definition_of(s)),
                    },
                ),
            },
        },
        NodeView::Reference(_) => st,
    }
}

pub open spec fn initial_state() -> CompileState {
    CompileState { alarms: seq![], errors: seq![], pending: None }
}

/// The state after the nodes `ns`.
pub open spec fn run(ns: Seq<NodeView>) -> CompileState
    decreases ns.len(),
{
    if ns.len() == 0 {
        initial_state()
    } else {
        step(run(ns.drop_last()), ns.last())
    }
}

/// What compiling the nodes `ns` gives.
pub open spec fn compile_of(ns: Seq<NodeView>) -> CompileState {
    flush(run(ns))
}

/// The nodes that compiling accepts: no references (they are expanded before), and
/// every schedule that follows an alarm carries its date and time (one that comes
/// before any alarm is only reported as an error).
pub open spec fn compilable(ns: Seq<NodeView>) -> bool {
    forall|i: int|
        0 <= i < ns.len() ==> match #[trigger] ns[i] {
            NodeView::Reference(_) => false,
            NodeView::AlarmSchedule(s) => alarm_count(ns.take(i)) > 0 ==> s.at is Some,
            NodeView::Alarm(_, _) => true,
        }
}

/// An alarm is being collected exactly when an alarm node has been seen.
proof fn lemma_pending_iff_alarm(ns: Seq<NodeView>)
    ensures
        run(ns).pending is None <==> alarm_count(ns) == 0,
    decreases ns.len(),
{
    if ns.len() > 0 {
        lemma_pending_iff_alarm(ns.drop_last());
    }
}

pub open spec fn pending_view(p: Option<AlarmDefinition>) -> Option<AlarmDefView> {
    match p {
        Some(d) => Some(d@),
        None => None,
    }
}

pub open spec fn state_of(
    alarms: Seq<AlarmDefinition>,
    errors: Seq<errors::Error>,
    pending: Option<AlarmDefinition>,
) -> CompileState {
    CompileState {
        alarms: definition_views(alarms),
        errors: error_views(errors),
        pending: pending_view(pending),
    }
}

pub fn compile_alarms(parsed: &[helper::Node]) -> (r: CompiledFile)
    requires
        compilable(node_views(parsed@)),
    ensures
        r@.alarms == compile_of(node_views(parsed@)).alarms,
        r@.errors == compile_of(node_views(parsed@)).errors,
{
    let ghost ns = node_views(parsed@);
    let mut alarms: Vec<AlarmDefinition> = Vec::new();
    let mut errors: Vec<errors::Error> = Vec::new();
    let mut pending: Option<AlarmDefinition> = None;
    let mut i: usize = 0;
    assert(ns.take(0) =~= Seq::<NodeView>::empty());
    assert(definition_views(alarms@) =~= Seq::<AlarmDefView>::empty());
    assert(error_views(errors@) =~= Seq::<ErrorView>::empty());
    assert(state_of(alarms@, errors@, pending) == initial_state());
    while i < parsed.len()
        invariant
            i <= parsed@.len(),
            ns == node_views(parsed@),
            compilable(ns),
            state_of(alarms@, errors@, pending) == run(ns.take(i as int)),
        decreases parsed@.len() - i,
    {
        let node = &parsed[i];
        assert(ns[i as int] == node@);
        assert(ns.take(i + 1).drop_last() =~= ns.take(i as int));
        assert(ns.take(i + 1).last() == ns[i as int]);
        match node {
            helper::Node::Alarm(alarm) => {
                flush_pending(&mut pending, &mut alarms, &mut errors);
                let title = alarm.name().to_string();
                let kind = alarm.kind().clone();
                let def = AlarmDefinition::new(title, kind);
                pending = Some(def);
                assert(schedule_views(def.schedules@) =~= Seq::<ScheduleDefView>::empty());
            },
            helper::Node::AlarmSchedule(schedule) => {
                match pending.take() {
                    Some(mut current) => {
                        proof {
                            lemma_pending_iff_alarm(ns.take(i as int));
                            assert(ns.take(i as int).len() == i);
                        }
                        current.add_schedule(ScheduleDefinition::from_schedule(*schedule));
                        pending = Some(current);
                    },
                    None => {
                        let ghost before = error_views(errors@);
                        let e = errors::Error::no_alarm();
                        errors.push(e);
                        assert(error_views(errors@) =~= before.push(e@));
                    },
                }
            },
            helper::Node::Reference(_) => {
                assert(false);
            },
        }
        i = i + 1;
    }
    assert(ns.take(i as int) =~= ns);
    flush_pending(&mut pending, &mut alarms, &mut errors);
    CompiledFile::new(alarms, errors)
}

fn flush_pending(
    pending: &mut Option<AlarmDefinition>,
    alarms: &mut Vec<AlarmDefinition>,
    errors: &mut Vec<errors::Error>,
)
    ensures
        state_of(final(alarms)@, final(errors)@, *final(pending)) == flush(
            state_of(old(alarms)@, old(errors)@, *old(pending)),
        ),
{
    let prev = match pending.take() {
        Some(prev) => prev,
        None => {
            return;
        },
    };
    if prev.schedules.len() == 0 {
        let ghost before = error_views(errors@);
        let e = errors::Error::alarm_no_schedule(prev.title);
        errors.push(e);
        assert(error_views(errors@) =~= before.push(e@));
        return;
    }
    let ghost before = definition_views(alarms@);
    let ghost pv = prev@;
    alarms.push(prev);
    assert(definition_views(alarms@) =~= before.push(pv));
}

impl AlarmDefinition {
    fn new(title: String, kind: alarm::AlarmType) -> (r: Self)
        ensures
            r.title@ == title@,
            r.kind@ == kind@,
            r.schedules@.len() == 0,
    {
        AlarmDefinition { title, kind, schedules: Vec::new() }
    }

    fn add_schedule(&mut self, schedule: ScheduleDefinition)
        ensures
            final(self)@ == (AlarmDefView {
                title: old(self)@.title,
                kind: old(self)@.kind,
                schedules: old(self)@.schedules.push(schedule@),
            }),
    {
        let ghost before = schedule_views(self.schedules@);
        self.schedules.push(schedule);
        assert(schedule_views(self.schedules@) =~= before.push(schedule@));
    }
}


/// The number of alarm nodes.
pub open spec fn alarm_count(ns: Seq<NodeView>) -> nat
    decreases ns.len(),
{
    if ns.len() == 0 {
        0
    } else {
        alarm_count(ns.drop_last()) + if ns.last() is Alarm {
            1nat
        } else {
            0nat
        }
    }
}

/// The number of schedule nodes that come before any alarm node.
pub open spec fn orphan_count(ns: Seq<NodeView>) -> nat
    decreases ns.len(),
{
    if ns.len() == 0 {
        0
    } else {
        orphan_count(ns.drop_last()) + if ns.last() is AlarmSchedule && alarm_count(ns.drop_last())
            == 0 {
            1nat
        } else {
            0nat
        }
    }
}

pub open spec fn all_scheduled(alarms: Seq<AlarmDefView>) -> bool {
    forall|i: int| 0 <= i < alarms.len() ==> (#[trigger] alarms[i]).schedules.len() > 0
}

proof fn lemma_run_invariants(ns: Seq<NodeView>)
    requires
        compilable(ns),
    ensures
        all_scheduled(run(ns).alarms),
        run(ns).alarms.len() + run(ns).errors.len() + (if run(ns).pending is Some {
            1int
        } else {
            0int
        }) == alarm_count(ns) + orphan_count(ns),
        run(ns).pending is None <==> alarm_count(ns) == 0,
    decreases ns.len(),
{
    if ns.len() > 0 {
        let prev = ns.drop_last();
        assert(compilable(prev)) by {
            assert forall|i: int| 0 <= i < prev.len() implies match #[trigger] prev[i] {
                NodeView::Reference(_) => false,
                NodeView::AlarmSchedule(s) => alarm_count(prev.take(i)) > 0 ==> s.at is Some,
                NodeView::Alarm(_, _) => true,
            } by {
                assert(prev[i] == ns[i]);
                assert(prev.take(i) =~= ns.take(i));
            }
        }
        lemma_run_invariants(prev);
        assert(ns[ns.len() - 1] !is Reference);
        let st = run(prev);
        let f = flush(st);
        assert(all_scheduled(f.alarms)) by {
            assert forall|i: int| 0 <= i < f.alarms.len() implies (#[trigger] f.alarms[i]).schedules.len()
                > 0 by {
                if i < st.alarms.len() {
                    assert(f.alarms[i] == st.alarms[i]);
                }
            }
        }
    }
}

/// Every alarm that compiling gives has at least one schedule.
pub proof fn lemma_compiled_alarms_have_schedules(ns: Seq<NodeView>)
    requires
        compilable(ns),
    ensures
        all_scheduled(compile_of(ns).alarms),
{
    lemma_run_invariants(ns);
    let st = run(ns);
    let f = flush(st);
    assert forall|i: int| 0 <= i < f.alarms.len() implies (#[trigger] f.alarms[i]).schedules.len()
        > 0 by {
        if i < st.alarms.len() {
            assert(f.alarms[i] == st.alarms[i]);
        }
    }
}

/// Every alarm node becomes either an alarm or an error, and every schedule node that
/// comes before any alarm becomes an error; nothing else does.
pub proof fn lemma_compile_accounts_for_nodes(ns: Seq<NodeView>)
    requires
        compilable(ns),
    ensures
        compile_of(ns).alarms.len() + compile_of(ns).errors.len() == alarm_count(ns)
            + orphan_count(ns),
{
    lemma_run_invariants(ns);
}


/// The nodes open with an alarm (or there are none), and each alarm node but the last
/// node is directly followed by a schedule.
pub open spec fn well_grouped_prefix(ns: Seq<NodeView>) -> bool {
    &&& (ns.len() == 0 || ns[0] is Alarm)
    &&& forall|i: int|
        0 <= i < ns.len() - 1 && (#[trigger] ns[i]) is Alarm ==> ns[i + 1] is AlarmSchedule
}

/// The nodes open with an alarm (or there are none), and every alarm node is directly
/// followed by a schedule.
pub open spec fn well_grouped(ns: Seq<NodeView>) -> bool {
    &&& well_grouped_prefix(ns)
    &&& (ns.len() > 0 ==> !(ns.last() is Alarm))
}

proof fn lemma_no_alarm_counted(ns: Seq<NodeView>)
    requires
        alarm_count(ns) == 0,
    ensures
        forall|i: int| 0 <= i < ns.len() ==> !(#[trigger] ns[i] is Alarm),
    decreases ns.len(),
{
    if ns.len() > 0 {
        let prev = ns.drop_last();
        lemma_no_alarm_counted(prev);
        assert forall|i: int| 0 <= i < ns.len() implies !(#[trigger] ns[i] is Alarm) by {
            if i < prev.len() {
                assert(ns[i] == prev[i]);
            }
        }
    }
}

/// Running over nodes without references: no error so far exactly when the nodes are
/// well grouped up to the last one, and the alarm being collected has no schedule
/// exactly when the last node is an alarm.
proof fn lemma_run_errors(ns: Seq<NodeView>)
    requires
        forall|i: int| 0 <= i < ns.len() ==> !(#[trigger] ns[i] is Reference),
    ensures
        run(ns).errors.len() == 0 <==> well_grouped_prefix(ns),
        ns.len() > 0 ==> (run(ns).pending matches Some(p) ==> (p.schedules.len() == 0
            <==> ns.last() is Alarm)),
    decreases ns.len(),
{
    if ns.len() > 0 {
        let prev = ns.drop_last();
        let n = ns.last();
        assert forall|i: int| 0 <= i < prev.len() implies !(#[trigger] prev[i] is Reference) by {
            assert(prev[i] == ns[i]);
        }
        lemma_run_errors(prev);
        lemma_pending_iff_alarm(prev);
        let st = run(prev);
        assert(run(ns) == step(st, n));
        // well_grouped_prefix(ns) in terms of prev
        let extra = prev.len() > 0 ==> (prev.last() is Alarm ==> n is AlarmSchedule);
        assert(well_grouped_prefix(ns) <==> (well_grouped_prefix(prev) && extra && (
        prev.len() == 0 ==> n is Alarm))) by {
            if well_grouped_prefix(ns) {
                assert forall|i: int|
                    0 <= i < prev.len() - 1 && (#[trigger] prev[i]) is Alarm implies prev[i
                    + 1] is AlarmSchedule by {
                    assert(prev[i] == ns[i]);
                    assert(prev[i + 1] == ns[i + 1]);
                }
                if prev.len() > 0 {
                    assert(prev[0] == ns[0]);
                    let k = prev.len() - 1;
                    assert(prev.last() == ns[k]);
                }
            }
            if well_grouped_prefix(prev) && extra && (prev.len() == 0 ==> n is Alarm) {
                assert forall|i: int|
                    0 <= i < ns.len() - 1 && (#[trigger] ns[i]) is Alarm implies ns[i
                    + 1] is AlarmSchedule by {
                    assert(ns[i] == prev[i]);
                    if i + 1 < prev.len() {
                        assert(ns[i + 1] == prev[i + 1]);
                    }
                }
                if prev.len() > 0 {
                    assert(prev[0] == ns[0]);
                }
            }
        }
        match n {
            NodeView::Alarm(_, _) => {
                if prev.len() > 0 && prev.last() is Alarm {
                    assert(alarm_count(prev) > 0);
                }
            },
            NodeView::AlarmSchedule(_) => {
                if st.pending is None && prev.len() > 0 {
                    lemma_no_alarm_counted(prev);
                    assert(!(prev[0] is Alarm));
                }
            },
            NodeView::Reference(_) => {
                assert(ns[ns.len() - 1] is Reference);
            },
        }
    }
}

/// A file compiles without errors exactly when its nodes are well grouped: they open
/// with an alarm (or there are none) and every alarm is directly followed by a schedule.
pub proof fn lemma_clean_exactly_when_well_grouped(ns: Seq<NodeView>)
    requires
        compilable(ns),
    ensures
        compile_of(ns).errors.len() == 0 <==> well_grouped(ns),
{
    assert forall|i: int| 0 <= i < ns.len() implies !(#[trigger] ns[i] is Reference) by {
        assert(match ns[i] {
            NodeView::Reference(_) => false,
            NodeView::AlarmSchedule(s) => alarm_count(ns.take(i)) > 0 ==> s.at is Some,
            NodeView::Alarm(_, _) => true,
        });
    }
    lemma_run_errors(ns);
    lemma_pending_iff_alarm(ns);
    if ns.len() > 0 && ns.last() is Alarm {
        assert(alarm_count(ns) > 0);
    }
}


/// The alarm `a` is opened by the alarm node at `i`, with the same title and kind, and
/// its schedules are, in order, those of the schedule nodes that directly follow that
/// node, up to the next alarm node or the end.
pub open spec fn opened_at(ns: Seq<NodeView>, i: int, a: AlarmDefView) -> bool {
    &&& 0 <= i
    &&& i + a.schedules.len() < ns.len()
    &&& ns[i] == NodeView::Alarm(a.title, a.kind)
    &&& forall|j: int|
        0 <= j < a.schedules.len() ==> (ns[i + 1 + j] matches NodeView::AlarmSchedule(s)
            && definition_of(s) == #[trigger] a.schedules[j])
    &&& (i + 1 + a.schedules.len() == ns.len() || ns[i + 1 + a.schedules.len()] is Alarm)
}

/// Some alarm node of `ns` opens the alarm `a`.
pub open spec fn comes_from_nodes(ns: Seq<NodeView>, a: AlarmDefView) -> bool {
    exists|i: int| #[trigger] opened_at(ns, i, a)
}

spec fn closed_in(ns: Seq<NodeView>, a: AlarmDefView) -> bool {
    exists|i: int| #[trigger] opened_at(ns, i, a) && i + 1 + a.schedules.len() < ns.len()
}

spec fn open_to_end(ns: Seq<NodeView>, a: AlarmDefView) -> bool {
    exists|i: int| #[trigger] opened_at(ns, i, a) && i + 1 + a.schedules.len() == ns.len()
}

proof fn lemma_opened_at_push(ns: Seq<NodeView>, n: NodeView, i: int, a: AlarmDefView)
    requires
        opened_at(ns, i, a),
        i + 1 + a.schedules.len() < ns.len(),
    ensures
        opened_at(ns.push(n), i, a),
{
    let ns2 = ns.push(n);
    assert(ns2[i] == ns[i]);
    assert(ns2[i + 1 + a.schedules.len()] == ns[i + 1 + a.schedules.len()]);
    assert forall|j: int| 0 <= j < a.schedules.len() implies (ns2[i + 1 + j] matches NodeView::AlarmSchedule(s)
        && definition_of(s) == #[trigger] a.schedules[j]) by {
        assert(ns2[i + 1 + j] == ns[i + 1 + j]);
    }
}

/// While running over nodes without references: each alarm made so far is opened by
/// its alarm node and closed by a later one, and the one being collected is opened by
/// its alarm node and reaches to the last node.
proof fn lemma_run_groups(ns: Seq<NodeView>)
    requires
        forall|i: int| 0 <= i < ns.len() ==> !(#[trigger] ns[i] is Reference),
    ensures
        forall|k: int| 0 <= k < run(ns).alarms.len() ==> closed_in(ns, #[trigger] run(ns).alarms[k]),
        run(ns).pending matches Some(p) ==> open_to_end(ns, p),
    decreases ns.len(),
{
    if ns.len() > 0 {
        let prev = ns.drop_last();
        let n = ns.last();
        assert forall|i: int| 0 <= i < prev.len() implies !(#[trigger] prev[i] is Reference) by {
            assert(prev[i] == ns[i]);
        }
        lemma_run_groups(prev);
        assert(prev.push(n) =~= ns);
        let st = run(prev);
        let st2 = run(ns);
        assert(st2 == step(st, n));
        assert forall|k: int| 0 <= k < st.alarms.len() implies closed_in(ns, #[trigger] st.alarms[k]) by {
            assert(closed_in(prev, st.alarms[k]));
            let i = choose|i: int|
                #[trigger] opened_at(prev, i, st.alarms[k]) && i + 1
                    + st.alarms[k].schedules.len() < prev.len();
            lemma_opened_at_push(prev, n, i, st.alarms[k]);
            assert(opened_at(ns, i, st.alarms[k]));
        }
        match n {
            NodeView::Alarm(name, kind) => {
                let f = flush(st);
                if let Some(p) = st.pending {
                    if p.schedules.len() > 0 {
                        assert(open_to_end(prev, p));
                        let ip = choose|i: int|
                            #[trigger] opened_at(prev, i, p) && i + 1 + p.schedules.len()
                                == prev.len();
                        assert(ns[ip] == prev[ip]);
                        assert forall|j: int| 0 <= j < p.schedules.len() implies (ns[ip + 1
                            + j] matches NodeView::AlarmSchedule(s) && definition_of(s)
                            == #[trigger] p.schedules[j]) by {
                            assert(ns[ip + 1 + j] == prev[ip + 1 + j]);
                        }
                        assert(opened_at(ns, ip, p));
                        assert(closed_in(ns, p));
                        assert forall|k: int| 0 <= k < f.alarms.len() implies closed_in(ns, #[trigger] f.alarms[k]) by {
                            if k < st.alarms.len() {
                                assert(f.alarms[k] == st.alarms[k]);
                            } else {
                                assert(f.alarms[k] == p);
                            }
                        }
                    }
                }
                let q = AlarmDefView { title: name, kind, schedules: seq![] };
                assert(st2.pending == Some(q));
                assert(opened_at(ns, prev.len() as int, q));
                assert(open_to_end(ns, q));
            },
            NodeView::AlarmSchedule(s) => {
                if let Some(p) = st.pending {
                    let p2 = AlarmDefView {
                        title: p.title,
                        kind: p.kind,
                        schedules: p.schedules.push(definition_of(s)),
                    };
                    assert(st2.pending == Some(p2));
                    assert(open_to_end(prev, p));
                    let ip = choose|i: int|
                        #[trigger] opened_at(prev, i, p) && i + 1 + p.schedules.len()
                            == prev.len();
                    assert(ns[ip] == prev[ip]);
                    assert forall|j: int| 0 <= j < p2.schedules.len() implies (ns[ip + 1
                        + j] matches NodeView::AlarmSchedule(x) && definition_of(x)
                        == #[trigger] p2.schedules[j]) by {
                        if j < p.schedules.len() {
                            assert(ns[ip + 1 + j] == prev[ip + 1 + j]);
                            assert(p2.schedules[j] == p.schedules[j]);
                        } else {
                            assert(ns[ip + 1 + j] == n);
                        }
                    }
                    assert(opened_at(ns, ip, p2));
                    assert(open_to_end(ns, p2));
                }
            },
            NodeView::Reference(_) => {
                assert(ns[ns.len() - 1] is Reference);
            },
        }
    }
}

/// Every alarm that compiling gives comes from an alarm node with the same title and
/// kind, and its schedules are, in order, those of the schedule nodes that directly
/// follow that node, up to the next alarm node or the end.
pub proof fn lemma_compiled_alarms_come_from_their_nodes(ns: Seq<NodeView>)
    requires
        compilable(ns),
    ensures
        forall|k: int|
            0 <= k < compile_of(ns).alarms.len() ==> comes_from_nodes(
                ns,
                #[trigger] compile_of(ns).alarms[k],
            ),
{
    assert forall|i: int| 0 <= i < ns.len() implies !(#[trigger] ns[i] is Reference) by {
        assert(match ns[i] {
            NodeView::Reference(_) => false,
            NodeView::AlarmSchedule(s) => alarm_count(ns.take(i)) > 0 ==> s.at is Some,
            NodeView::Alarm(_, _) => true,
        });
    }
    lemma_run_groups(ns);
    let st = run(ns);
    let f = compile_of(ns);
    assert forall|k: int| 0 <= k < f.alarms.len() implies comes_from_nodes(ns, #[trigger] f.alarms[k]) by {
        if k < st.alarms.len() {
            assert(f.alarms[k] == st.alarms[k]);
            assert(closed_in(ns, st.alarms[k]));
            let i = choose|i: int|
                #[trigger] opened_at(ns, i, st.alarms[k]) && i + 1 + st.alarms[k].schedules.len()
                    < ns.len();
            assert(opened_at(ns, i, f.alarms[k]));
        } else {
            let p = st.pending->0;
            assert(f.alarms[k] == p);
            assert(open_to_end(ns, p));
            let i = choose|i: int|
                #[trigger] opened_at(ns, i, p) && i + 1 + p.schedules.len() == ns.len();
            assert(opened_at(ns, i, f.alarms[k]));
        }
    }
}

} // verus!
