//! Expanding the references of a file into the nodes of the files they name.
//!
//! Reading files is left to the caller: an [`Expander`] says which file it needs next
//! ([`Expander::next_action`]) and is handed its contents ([`Expander::feed`]). A file is
//! not read again while it is being expanded, so references that form a cycle end there.
use vstd::prelude::*;
use crate::errors;
use crate::errors::{ErrorView, LineErrorView};
use crate::parser::{file, helper, reference};
use crate::parser::file::{line_error_views, node_views, reference_views};
use crate::parser::helper::NodeView;

verus! {

/// What `Path::parent` gives for a path, shown as text.
pub uninterp spec fn path_parent_of(p: Seq<char>) -> Option<Seq<char>>;

/// What `Path::join` gives for two paths, shown as text.
pub uninterp spec fn path_join_of(base: Seq<char>, rel: Seq<char>) -> Seq<char>;

/// Whether two paths are equal as `Path`s (component by component).
pub uninterp spec fn path_same(a: Seq<char>, b: Seq<char>) -> bool;

/// `std::path::Path::parent`; its result is named by `path_parent_of`.
#[verifier::external_body]
fn path_parent(p: &str) -> (r: Option<String>)
    ensures
        match path_parent_of(p@) {
            Some(q) => r matches Some(s) && s@ == q,
            None => r is None,
        },
{
    match std::path::Path::new(p).parent() {
        Some(q) => Some(q.display().to_string()),
        None => None,
    }
}

/// `std::path::Path::join`; its result is named by `path_join_of`.
#[verifier::external_body]
pub(crate) fn path_join(base: &str, rel: &str) -> (r: String)
    ensures
        r@ == path_join_of(base@, rel@),
{
    std::path::Path::new(base).join(rel).display().to_string()
}

/// `==` on `std::path::Path`; its result is named by `path_same`.
#[verifier::external_body]
fn path_eq(a: &str, b: &str) -> (r: bool)
    ensures
        r == path_same(a@, b@),
{
    std::path::Path::new(a) == std::path::Path::new(b)
}

/// The path of the file that `rel`, referenced from the file at `current`, names: `rel`
/// joined to the directory of `current` (or to `.` where it has none).
pub open spec fn target_path_of(current: Seq<char>, rel: Seq<char>) -> Seq<char> {
    match path_parent_of(current) {
        Some(d) => path_join_of(d, rel),
        None => path_join_of("."@, rel),
    }
}

fn target_path(current: &str, rel: &str) -> (r: String)
    ensures
        r@ == target_path_of(current@, rel@),
{
    match path_parent(current) {
        Some(dir) => path_join(dir.as_str(), rel),
        None => path_join(".", rel),
    }
}

struct Frame {
    path: String,
    references: Vec<reference::Reference>,
    next: usize,
}

/// A file being expanded: its path, its references, and how many of them are done.
pub struct FrameView {
    pub path: Seq<char>,
    pub references: Seq<Seq<char>>,
    pub next: nat,
}

/// The state of an expansion.
pub struct ExpanderView {
    /// The paths of the files being expanded, outermost first.
    pub stack: Seq<Seq<char>>,
    pub frames: Seq<FrameView>,
    pub alarms: Seq<NodeView>,
    pub errors: Seq<ErrorView>,
    /// The path whose contents the expansion waits for.
    pub waiting: Option<Seq<char>>,
}

pub struct Expander {
    stack: Vec<String>,
    frames: Vec<Frame>,
    alarms: Vec<helper::Node>,
    errors: Vec<errors::Error>,
    waiting: Option<String>,
}

pub enum ExpandAction {
    /// Read the file at this path and hand its contents to [`Expander::feed`].
    Read(String),
    /// The expansion is complete.
    Done,
}

spec fn frame_view(f: Frame) -> FrameView {
    FrameView { path: f.path@, references: reference_views(f.references@), next: f.next as nat }
}

spec fn frame_views(fs: Seq<Frame>) -> Seq<FrameView> {
    fs.map_values(|f: Frame| frame_view(f))
}

pub open spec fn string_views(s: Seq<String>) -> Seq<Seq<char>> {
    s.map_values(|x: String| x@)
}

pub open spec fn option_text(o: Option<String>) -> Option<Seq<char>> {
    match o {
        Some(s) => Some(s@),
        None => None,
    }
}

impl View for Expander {
    type V = ExpanderView;

    closed spec fn view(&self) -> ExpanderView {
        ExpanderView {
            stack: string_views(self.stack@),
            frames: frame_views(self.frames@),
            alarms: node_views(self.alarms@),
            errors: crate::compile::error_views(self.errors@),
            waiting: option_text(self.waiting),
        }
    }
}

pub open spec fn action_view(a: ExpandAction) -> Option<Seq<char>> {
    match a {
        ExpandAction::Read(p) => Some(p@),
        ExpandAction::Done => None,
    }
}

/// Whether a path equal to `t` is on the stack.
pub open spec fn on_stack(stack: Seq<Seq<char>>, t: Seq<char>) -> bool {
    exists|i: int| 0 <= i < stack.len() && path_same(#[trigger] stack[i], t)
}

/// The references left to look at, plus one for each frame.
pub open spec fn frames_work(fs: Seq<FrameView>) -> nat
    decreases fs.len(),
{
    if fs.len() == 0 {
        0
    } else {
        let f = fs.last();
        frames_work(fs.drop_last()) + 1 + if f.next < f.references.len() {
            (f.references.len() - f.next) as nat
        } else {
            0nat
        }
    }
}

/// One step of the search for the next file to read: the next reference of the innermost
/// file is looked at (and skipped if its file is being expanded already), or the
/// innermost file, all of whose references are done, is closed. `None` when no file is
/// left; the second component is the path to read, if the step found one.
pub open spec fn step_of(st: ExpanderView) -> Option<(ExpanderView, Option<Seq<char>>)> {
    if st.frames.len() == 0 {
        None
    } else {
        let k = st.frames.len() - 1;
        let top = st.frames[k];
        if top.next < top.references.len() {
            let t = target_path_of(top.path, top.references[top.next as int]);
            let frames = st.frames.update(
                k,
                FrameView { path: top.path, references: top.references, next: top.next + 1 },
            );
            if on_stack(st.stack, t) {
                Some(
                    (
                        ExpanderView {
                            stack: st.stack,
                            frames,
                            alarms: st.alarms,
                            errors: st.errors,
                            waiting: st.waiting,
                        },
                        None,
                    ),
                )
            } else {
                Some(
                    (
                        ExpanderView {
                            stack: st.stack,
                            frames,
                            alarms: st.alarms,
                            errors: st.errors,
                            waiting: Some(t),
                        },
                        Some(t),
                    ),
                )
            }
        } else {
            Some(
                (
                    ExpanderView {
                        stack: if st.frames.len() > 1 && st.stack.len() > 0 {
                            st.stack.drop_last()
                        } else {
                            st.stack
                        },
                        frames: st.frames.drop_last(),
                        alarms: st.alarms,
                        errors: st.errors,
                        waiting: st.waiting,
                    },
                    None,
                ),
            )
        }
    }
}

pub proof fn lemma_step_decreases(st: ExpanderView)
    ensures
        step_of(st) matches Some((s2, _)) ==> frames_work(s2.frames) < frames_work(st.frames),
{
    if st.frames.len() > 0 {
        let k = st.frames.len() - 1;
        let top = st.frames[k];
        if top.next < top.references.len() {
            let frames = st.frames.update(
                k,
                FrameView { path: top.path, references: top.references, next: top.next + 1 },
            );
            assert(frames.drop_last() =~= st.frames.drop_last());
        }
    }
}

/// Steps until a file to read is found or none is left.
pub open spec fn advance(st: ExpanderView) -> (ExpanderView, Option<Seq<char>>)
    decreases frames_work(st.frames),
{
    match step_of(st) {
        None => (st, None),
        Some((s2, Some(t))) => (s2, Some(t)),
        Some((s2, None)) => {
            proof {
                lemma_step_decreases(st);
            }
            advance(s2)
        },
    }
}

/// What `next_action` does: ask again for the file awaited, if any, else advance.
pub open spec fn next_of(st: ExpanderView) -> (ExpanderView, Option<Seq<char>>) {
    match st.waiting {
        Some(t) => (st, Some(t)),
        None => advance(st),
    }
}

/// The errors that a file with line errors gives: each wrapped with the file's path.
pub open spec fn wrap_line_errors(t: Seq<char>, es: Seq<LineErrorView>) -> Seq<ErrorView> {
    es.map_values(|e: LineErrorView| ErrorView::ParseInReference(t, Box::new(e)))
}

/// What `feed` does with the contents of the awaited file (`None` where it could not be
/// read): a file that cannot be read is an error; a file with line errors gives those
/// errors; any other file is entered: its nodes are added and its references come next.
pub open spec fn feed_of(st: ExpanderView, contents: Option<Seq<char>>) -> ExpanderView {
    match st.waiting {
        None => st,
        Some(t) => match contents {
            None => ExpanderView {
                stack: st.stack,
                frames: st.frames,
                alarms: st.alarms,
                errors: st.errors.push(ErrorView::ReferenceNotFound(t)),
                waiting: None,
            },
            Some(text) => {
                let p = crate::parser::parsed_of(text);
                if p.errors.len() > 0 {
                    ExpanderView {
                        stack: st.stack,
                        frames: st.frames,
                        alarms: st.alarms,
                        errors: st.errors + wrap_line_errors(t, p.errors),
                        waiting: None,
                    }
                } else {
                    ExpanderView {
                        stack: st.stack.push(t),
                        frames: st.frames.push(
                            FrameView { path: t, references: p.references, next: 0 },
                        ),
                        alarms: st.alarms + p.alarms,
                        errors: st.errors,
                        waiting: None,
                    }
                }
            },
        },
    }
}

/// The state in which expanding `p`, the file at `path`, begins; `stack` holds the paths
/// of the files being expanded.
pub open spec fn start_of(p: file::ParsedView, path: Seq<char>, stack: Seq<Seq<char>>) -> ExpanderView {
    ExpanderView {
        stack,
        frames: seq![FrameView { path, references: p.references, next: 0 }],
        alarms: p.alarms,
        errors: seq![],
        waiting: None,
    }
}

impl Expander {
    /// Starts expanding the references of `parsed`, the file at `current_path`; `stack`
    /// holds the paths of the files being expanded (that of `current_path` among them).
    /// The nodes of `parsed` come first; its line errors are not looked at.
    pub fn new(parsed: file::ParsedFile, current_path: String, stack: Vec<String>) -> (r: Self)
        ensures
            r@ == start_of(parsed@, current_path@, string_views(stack@)),
    {
        let (alarms, references, _) = parsed.into_parts();
        let frame = Frame { path: current_path, references, next: 0 };
        let frames = vec![frame];
        let r = Expander { stack, frames, alarms, errors: Vec::new(), waiting: None };
        assert(frame_views(r.frames@) =~= seq![frame_view(frame)]);
        assert(crate::compile::error_views(r.errors@) =~= Seq::<ErrorView>::empty());
        r
    }

    fn stack_has(&self, t: &String) -> (r: bool)
        ensures
            r == on_stack(self@.stack, t@),
    {
        let mut i: usize = 0;
        while i < self.stack.len()
            invariant
                i <= self.stack@.len(),
                forall|j: int| 0 <= j < i ==> !path_same(#[trigger] string_views(self.stack@)[j], t@),
            decreases self.stack@.len() - i,
        {
            assert(string_views(self.stack@)[i as int] == self.stack@[i as int]@);
            if path_eq(self.stack[i].as_str(), t.as_str()) {
                return true;
            }
            i = i + 1;
        }
        false
    }

    /// The next thing to do: read a file, or nothing, the expansion being complete.
    pub fn next_action(&mut self) -> (r: ExpandAction)
        ensures
            (final(self)@, action_view(r)) == next_of(old(self)@),
    {
        match &self.waiting {
            Some(t) => {
                return ExpandAction::Read(t.clone());
            },
            None => {},
        }
        loop
            invariant
                self@.waiting is None,
                advance(self@) == advance(old(self)@),
                old(self)@.waiting is None,
            decreases frames_work(self@.frames),
        {
            let ghost st = self@;
            proof {
                lemma_step_decreases(st);
            }
            let k = self.frames.len();
            if k == 0 {
                return ExpandAction::Done;
            }
            let mut top = self.frames.pop().unwrap();
            assert(frame_view(top) == st.frames[k - 1]);
            assert(frame_views(self.frames@) =~= st.frames.drop_last());
            if top.next < top.references.len() {
                let ghost fv = frame_view(top);
                let rel = top.references[top.next].target();
                assert(reference_views(top.references@)[top.next as int] == top.references@[top.next as int]@);
                let t = target_path(top.path.as_str(), rel);
                top.next = top.next + 1;
                self.frames.push(top);
                assert(frame_views(self.frames@) =~= st.frames.update(
                    k - 1,
                    FrameView { path: fv.path, references: fv.references, next: fv.next + 1 },
                ));
                if !self.stack_has(&t) {
                    self.waiting = Some(t.clone());
                    return ExpandAction::Read(t);
                }
            } else {
                if k > 1 && self.stack.len() > 0 {
                    let ghost before = self.stack@;
                    self.stack.pop();
                    assert(string_views(self.stack@) =~= string_views(before).drop_last());
                }
            }
        }
    }

    /// Hands over the contents of the awaited file, or `None` where it could not be read.
    pub fn feed(&mut self, contents: Option<String>)
        ensures
            final(self)@ == feed_of(old(self)@, option_text(contents)),
    {
        let target = match self.waiting.take() {
            Some(t) => t,
            None => {
                return;
            },
        };
        let ghost st = old(self)@;
        let text = match contents {
            Some(text) => text,
            None => {
                let ghost before = crate::compile::error_views(self.errors@);
                let e = errors::Error::reference_not_found(target);
                self.errors.push(e);
                assert(crate::compile::error_views(self.errors@) =~= before.push(e@));
                return;
            },
        };
        let parsed = crate::parser::parse_file(text.as_str());
        let ghost p = parsed@;
        if !parsed.is_clean() {
            let (_, _, line_errors) = parsed.into_parts();
            let ghost les = line_error_views(line_errors@);
            let ghost before = crate::compile::error_views(self.errors@);
            for le in it: line_errors
                invariant
                    les == line_error_views(it.seq()),
                    crate::compile::error_views(self.errors@) == before + wrap_line_errors(
                        target@,
                        les.take(it.index() as int),
                    ),
                    self@.stack == st.stack,
                    self@.frames == st.frames,
                    self@.alarms == st.alarms,
                    self@.waiting is None,
            {
                let ghost k = it.index();
                let ghost lv = le@;
                let ghost prev = crate::compile::error_views(self.errors@);
                let e = errors::Error::parse_in_reference(target.clone(), le);
                self.errors.push(e);
                assert(les[k as int] == lv);
                assert(les.take(k + 1) =~= les.take(k as int).push(lv));
                assert(e@ == ErrorView::ParseInReference(target@, Box::new(lv)));
                assert(wrap_line_errors(target@, les.take(k + 1)) =~= wrap_line_errors(
                    target@,
                    les.take(k as int),
                ).push(e@));
                assert(crate::compile::error_views(self.errors@) =~= prev.push(e@));
                assert(crate::compile::error_views(self.errors@) =~= before + wrap_line_errors(
                    target@,
                    les.take(k + 1),
                ));
            }
            assert(les.take(les.len() as int) =~= les);
            return;
        }
        let (alarms, references, _) = parsed.into_parts();
        let ghost before_s = string_views(self.stack@);
        self.stack.push(target.clone());
        assert(string_views(self.stack@) =~= before_s.push(target@));
        let ghost before_f = frame_views(self.frames@);
        let frame = Frame { path: target, references, next: 0 };
        self.frames.push(frame);
        assert(frame_views(self.frames@) =~= before_f.push(frame_view(frame)));
        let ghost ns = node_views(alarms@);
        let ghost before_a = node_views(self.alarms@);
        for n in it: alarms
            invariant
                ns == node_views(it.seq()),
                node_views(self.alarms@) == before_a + ns.take(it.index() as int),
                self@.stack == st.stack.push(target@),
                self@.frames == st.frames.push(
                    FrameView { path: target@, references: p.references, next: 0 },
                ),
                self@.errors == st.errors,
                self@.waiting is None,
        {
            let ghost k = it.index();
            let ghost nv = n@;
            let ghost prev = node_views(self.alarms@);
            self.alarms.push(n);
            assert(ns[k as int] == nv);
            assert(ns.take(k + 1) =~= ns.take(k as int).push(nv));
            assert(node_views(self.alarms@) =~= prev.push(nv));
            assert(node_views(self.alarms@) =~= before_a + ns.take(k + 1));
        }
        assert(ns.take(ns.len() as int) =~= ns);
    }

    /// The nodes and errors of the expansion.
    pub fn finish(self) -> (r: (Vec<helper::Node>, Vec<errors::Error>))
        ensures
            node_views(r.0@) == self@.alarms,
            crate::compile::error_views(r.1@) == self@.errors,
    {
        (self.alarms, self.errors)
    }
}


proof fn lemma_advance_reads_unvisited(st: ExpanderView)
    ensures
        advance(st).1 matches Some(t) ==> !on_stack(advance(st).0.stack, t),
    decreases frames_work(st.frames),
{
    lemma_step_decreases(st);
    match step_of(st) {
        Some((s2, None)) => lemma_advance_reads_unvisited(s2),
        _ => {},
    }
}

/// A file that is asked for is never one being expanded already: references that lead
/// back to a file on the stack (the file itself or one that includes it) are skipped,
/// so cycles of references end.
pub proof fn lemma_no_file_read_twice_on_a_path(st: ExpanderView)
    requires
        st.waiting is None,
    ensures
        next_of(st).1 matches Some(t) ==> !on_stack(next_of(st).0.stack, t),
{
    lemma_advance_reads_unvisited(st);
}


/// The contents of files by path, as handed to [`Expander::feed`]: `None` where a file
/// cannot be read.
pub type Files = spec_fn(Seq<char>) -> Option<Seq<char>>;

/// The state that the expansion from `st` reaches when each file it asks for is handed
/// its contents in `fs`; `None` where `n` reads do not bring it to the end.
pub open spec fn run_expansion(st: ExpanderView, fs: Files, n: nat) -> Option<ExpanderView>
    decreases n,
{
    if n == 0 {
        None
    } else {
        match next_of(st) {
            (s1, None) => Some(s1),
            (s1, Some(t)) => run_expansion(feed_of(s1, fs(t)), fs, (n - 1) as nat),
        }
    }
}

/// The nodes and errors that the references `refs[k..]` of the file at `path` give, the
/// files being read from `fs` and `stack` holding the files being expanded: a reference
/// to a file on the stack gives nothing; a file that cannot be read gives a
/// reference-not-found error; a file with line errors gives those errors, each wrapped
/// with its path, and nothing else; any other file gives its own nodes, then what its
/// references give (with its path on the stack). `fuel` bounds how deep references nest;
/// `None` where it runs out.
pub open spec fn expand_refs(
    fs: Files,
    path: Seq<char>,
    refs: Seq<Seq<char>>,
    k: nat,
    stack: Seq<Seq<char>>,
    fuel: nat,
) -> Option<(Seq<NodeView>, Seq<ErrorView>)>
    decreases fuel, refs.len() - k,
{
    if k >= refs.len() {
        Some((seq![], seq![]))
    } else {
        let t = target_path_of(path, refs[k as int]);
        let rest = expand_refs(fs, path, refs, k + 1, stack, fuel);
        if on_stack(stack, t) {
            rest
        } else {
            match fs(t) {
                None => match rest {
                    Some((ns, es)) => Some((ns, seq![ErrorView::ReferenceNotFound(t)] + es)),
                    None => None,
                },
                Some(text) => {
                    let p = crate::parser::parsed_of(text);
                    if p.errors.len() > 0 {
                        match rest {
                            Some((ns, es)) => Some((ns, wrap_line_errors(t, p.errors) + es)),
                            None => None,
                        }
                    } else if fuel == 0 {
                        None
                    } else {
                        match (
                            expand_refs(fs, t, p.references, 0, stack.push(t), (fuel - 1) as nat),
                            rest,
                        ) {
                            (Some((ns1, es1)), Some((ns2, es2))) => Some(
                                (p.alarms + ns1 + ns2, es1 + es2),
                            ),
                            _ => None,
                        }
                    }
                },
            }
        }
    }
}

/// Whether expanding the references `refs` of the file at `path` gives the nodes `ns`
/// and the errors `es`, with enough room for nesting.
pub open spec fn expands_to(
    fs: Files,
    path: Seq<char>,
    refs: Seq<Seq<char>>,
    stack: Seq<Seq<char>>,
    ns: Seq<NodeView>,
    es: Seq<ErrorView>,
) -> bool {
    exists|f: nat| #[trigger] expand_refs(fs, path, refs, 0, stack, f) == Some((ns, es))
}

pub open spec fn no_reference_nodes(ns: Seq<NodeView>) -> bool {
    forall|i: int| 0 <= i < ns.len() ==> !(#[trigger] ns[i] is Reference)
}

/// More room for nesting changes nothing once there is enough.
proof fn lemma_expand_refs_mono(
    fs: Files,
    path: Seq<char>,
    refs: Seq<Seq<char>>,
    k: nat,
    stack: Seq<Seq<char>>,
    f1: nat,
    f2: nat,
)
    requires
        f1 <= f2,
        expand_refs(fs, path, refs, k, stack, f1) is Some,
    ensures
        expand_refs(fs, path, refs, k, stack, f2) == expand_refs(fs, path, refs, k, stack, f1),
    decreases f1, refs.len() - k,
{
    if k < refs.len() {
        lemma_expand_refs_mono(fs, path, refs, k + 1, stack, f1, f2);
        let t = target_path_of(path, refs[k as int]);
        if !on_stack(stack, t) {
            if let Some(text) = fs(t) {
                let p = crate::parser::parsed_of(text);
                if p.errors.len() == 0 && f1 > 0 {
                    lemma_expand_refs_mono(
                        fs,
                        t,
                        p.references,
                        0,
                        stack.push(t),
                        (f1 - 1) as nat,
                        (f2 - 1) as nat,
                    );
                }
            }
        }
    }
}

proof fn lemma_non_references_have_none(ns: Seq<NodeView>)
    ensures
        no_reference_nodes(file::non_references(ns)),
    decreases ns.len(),
{
    if ns.len() > 0 {
        lemma_non_references_have_none(ns.drop_last());
    }
}

proof fn lemma_concat_no_references(a: Seq<NodeView>, b: Seq<NodeView>)
    requires
        no_reference_nodes(a),
        no_reference_nodes(b),
    ensures
        no_reference_nodes(a + b),
{
    assert forall|i: int| 0 <= i < (a + b).len() implies !(#[trigger] (a + b)[i] is Reference) by {
        if i >= a.len() {
            assert((a + b)[i] == b[i - a.len()]);
        }
    }
}

/// The nodes that references give are never references themselves.
proof fn lemma_expand_refs_no_references(
    fs: Files,
    path: Seq<char>,
    refs: Seq<Seq<char>>,
    k: nat,
    stack: Seq<Seq<char>>,
    fuel: nat,
)
    ensures
        expand_refs(fs, path, refs, k, stack, fuel) matches Some((ns, _)) ==> no_reference_nodes(
            ns,
        ),
    decreases fuel, refs.len() - k,
{
    if k < refs.len() {
        lemma_expand_refs_no_references(fs, path, refs, k + 1, stack, fuel);
        let t = target_path_of(path, refs[k as int]);
        if !on_stack(stack, t) {
            if let Some(text) = fs(t) {
                let p = crate::parser::parsed_of(text);
                if p.errors.len() == 0 && fuel > 0 {
                    lemma_expand_refs_no_references(
                        fs,
                        t,
                        p.references,
                        0,
                        stack.push(t),
                        (fuel - 1) as nat,
                    );
                    lemma_non_references_have_none(
                        crate::parser::line_nodes(
                            crate::parser::chain_for(text),
                            crate::text::lines(text),
                        ),
                    );
                    let e1 = expand_refs(fs, t, p.references, 0, stack.push(t), (fuel - 1) as nat);
                    let e2 = expand_refs(fs, path, refs, k + 1, stack, fuel);
                    if let (Some((ns1, _)), Some((ns2, _))) = (e1, e2) {
                        lemma_concat_no_references(p.alarms, ns1);
                        lemma_concat_no_references(p.alarms + ns1, ns2);
                    }
                }
            }
        }
    }
}

/// One small step of the expansion: a reference is looked at (and its file, if read,
/// handed over from `fs`), or a finished file is closed; `None` when no file is left.
pub open spec fn small_step(st: ExpanderView, fs: Files) -> Option<ExpanderView> {
    match step_of(st) {
        None => None,
        Some((s2, None)) => Some(s2),
        Some((s2, Some(t))) => Some(feed_of(s2, fs(t))),
    }
}

pub open spec fn run_small(st: ExpanderView, fs: Files, m: nat) -> Option<ExpanderView>
    decreases m,
{
    if m == 0 {
        None
    } else {
        match small_step(st, fs) {
            None => Some(st),
            Some(s2) => run_small(s2, fs, (m - 1) as nat),
        }
    }
}

/// The state once the innermost file of `st` is closed, its references having given
/// the nodes `ns` and the errors `es`.
pub open spec fn closed_state(st: ExpanderView, ns: Seq<NodeView>, es: Seq<ErrorView>) -> ExpanderView {
    ExpanderView {
        stack: if st.frames.len() > 1 && st.stack.len() > 0 {
            st.stack.drop_last()
        } else {
            st.stack
        },
        frames: st.frames.drop_last(),
        alarms: st.alarms + ns,
        errors: st.errors + es,
        waiting: None,
    }
}

/// A run of reads is a run of small steps.
proof fn lemma_run_as_small_steps(st: ExpanderView, fs: Files, n: nat) -> (m: nat)
    requires
        st.waiting is None,
        run_expansion(st, fs, n) is Some,
    ensures
        run_small(st, fs, m) == run_expansion(st, fs, n),
    decreases n, frames_work(st.frames),
{
    lemma_step_decreases(st);
    match step_of(st) {
        None => 1,
        Some((s2, None)) => {
            assert(next_of(st) == next_of(s2));
            let m1 = lemma_run_as_small_steps(s2, fs, n);
            m1 + 1
        },
        Some((s2, Some(t))) => {
            let s3 = feed_of(s2, fs(t));
            let m1 = lemma_run_as_small_steps(s3, fs, (n - 1) as nat);
            m1 + 1
        },
    }
}

/// Running the innermost file of `st` to its end: its remaining references give what
/// `expand_refs` states, and the run goes on from the state in which it is closed.
proof fn lemma_frame_runs_to_close(st: ExpanderView, fs: Files, m: nat) -> (m2: nat)
    requires
        st.frames.len() > 0,
        st.waiting is None,
        run_small(st, fs, m) is Some,
    ensures
        m2 < m,
        ({
            let top = st.frames.last();
            expand_refs(fs, top.path, top.references, top.next, st.stack, m) matches Some(
                (ns, es),
            ) && run_small(closed_state(st, ns, es), fs, m2) == run_small(st, fs, m)
        }),
    decreases m, st.frames.last().references.len() - st.frames.last().next,
{
    let k = st.frames.len() - 1;
    let top = st.frames[k];
    if top.next >= top.references.len() {
        let (s2, _) = step_of(st)->0;
        assert(st.alarms + Seq::<NodeView>::empty() =~= st.alarms);
        assert(st.errors + Seq::<ErrorView>::empty() =~= st.errors);
        assert(closed_state(st, seq![], seq![]) == s2);
        (m - 1) as nat
    } else {
        let t = target_path_of(top.path, top.references[top.next as int]);
        let next_top = FrameView { path: top.path, references: top.references, next: top.next + 1 };
        let frames = st.frames.update(k, next_top);
        assert(frames.last() == next_top);
        assert(frames.drop_last() =~= st.frames.drop_last());
        if on_stack(st.stack, t) {
            let s2 = ExpanderView {
                stack: st.stack,
                frames,
                alarms: st.alarms,
                errors: st.errors,
                waiting: None,
            };
            assert(small_step(st, fs) == Some(s2));
            let m1 = lemma_frame_runs_to_close(s2, fs, (m - 1) as nat);
            lemma_expand_refs_mono(
                fs,
                top.path,
                top.references,
                top.next + 1,
                st.stack,
                (m - 1) as nat,
                m,
            );
            m1
        } else {
            match fs(t) {
                None => {
                    let s2 = ExpanderView {
                        stack: st.stack,
                        frames,
                        alarms: st.alarms,
                        errors: st.errors.push(ErrorView::ReferenceNotFound(t)),
                        waiting: None,
                    };
                    assert(small_step(st, fs) == Some(s2));
                    let m1 = lemma_frame_runs_to_close(s2, fs, (m - 1) as nat);
                    lemma_expand_refs_mono(
                        fs,
                        top.path,
                        top.references,
                        top.next + 1,
                        st.stack,
                        (m - 1) as nat,
                        m,
                    );
                    let (ns, es) = expand_refs(
                        fs,
                        top.path,
                        top.references,
                        top.next + 1,
                        st.stack,
                        m,
                    )->0;
                    assert(s2.errors + es =~= st.errors + (seq![ErrorView::ReferenceNotFound(t)]
                        + es));
                    assert(closed_state(s2, ns, es) == closed_state(
                        st,
                        ns,
                        seq![ErrorView::ReferenceNotFound(t)] + es,
                    ));
                    m1
                },
                Some(text) => {
                    let p = crate::parser::parsed_of(text);
                    if p.errors.len() > 0 {
                        let s2 = ExpanderView {
                            stack: st.stack,
                            frames,
                            alarms: st.alarms,
                            errors: st.errors + wrap_line_errors(t, p.errors),
                            waiting: None,
                        };
                        assert(small_step(st, fs) == Some(s2));
                        let m1 = lemma_frame_runs_to_close(s2, fs, (m - 1) as nat);
                        lemma_expand_refs_mono(
                            fs,
                            top.path,
                            top.references,
                            top.next + 1,
                            st.stack,
                            (m - 1) as nat,
                            m,
                        );
                        let (ns, es) = expand_refs(
                            fs,
                            top.path,
                            top.references,
                            top.next + 1,
                            st.stack,
                            m,
                        )->0;
                        assert(s2.errors + es =~= st.errors + (wrap_line_errors(t, p.errors)
                            + es));
                        assert(closed_state(s2, ns, es) == closed_state(
                            st,
                            ns,
                            wrap_line_errors(t, p.errors) + es,
                        ));
                        m1
                    } else {
                        let inner = FrameView { path: t, references: p.references, next: 0 };
                        let s2 = ExpanderView {
                            stack: st.stack.push(t),
                            frames: frames.push(inner),
                            alarms: st.alarms + p.alarms,
                            errors: st.errors,
                            waiting: None,
                        };
                        assert(small_step(st, fs) == Some(s2));
                        assert(s2.frames.last() == inner);
                        let m1 = lemma_frame_runs_to_close(s2, fs, (m - 1) as nat);
                        let (ns1, es1) = expand_refs(
                            fs,
                            t,
                            p.references,
                            0,
                            st.stack.push(t),
                            (m - 1) as nat,
                        )->0;
                        let s3 = closed_state(s2, ns1, es1);
                        assert(st.stack.push(t).drop_last() =~= st.stack);
                        assert(s2.frames.drop_last() =~= frames);
                        assert(s3.frames.last() == next_top);
                        assert(s3.stack == st.stack);
                        let m3 = lemma_frame_runs_to_close(s3, fs, m1);
                        lemma_expand_refs_mono(
                            fs,
                            top.path,
                            top.references,
                            top.next + 1,
                            st.stack,
                            m1,
                            m,
                        );
                        let (ns2, es2) = expand_refs(
                            fs,
                            top.path,
                            top.references,
                            top.next + 1,
                            st.stack,
                            m,
                        )->0;
                        assert(s3.frames.drop_last() =~= st.frames.drop_last());
                        assert(s3.alarms + ns2 =~= st.alarms + (p.alarms + ns1 + ns2));
                        assert(s3.errors + es2 =~= st.errors + (es1 + es2));
                        assert(closed_state(s3, ns2, es2) == closed_state(
                            st,
                            p.alarms + ns1 + ns2,
                            es1 + es2,
                        ));
                        m3
                    }
                },
            }
        }
    }
}

/// Expanding a file to its end, each file asked for being handed its contents in `fs`,
/// leaves the stack as it was and gives the file's own nodes first, then what its
/// references give, in order, as [`expand_refs`] states: a reference to a file being
/// expanded (such as the file itself) gives nothing, a file that cannot be read gives a
/// reference-not-found error, a file with line errors gives those errors only, and any
/// other file gives its nodes and then its own references' expansion. No reference node
/// is left among the nodes.
pub proof fn lemma_expansion_result(
    p: file::ParsedView,
    path: Seq<char>,
    stack: Seq<Seq<char>>,
    fs: Files,
    n: nat,
)
    requires
        no_reference_nodes(p.alarms),
        run_expansion(start_of(p, path, stack), fs, n) is Some,
    ensures
        run_expansion(start_of(p, path, stack), fs, n) matches Some(fin) && {
            &&& fin.stack == stack
            &&& fin.frames.len() == 0
            &&& fin.waiting is None
            &&& fin.alarms.take(p.alarms.len() as int) == p.alarms
            &&& expands_to(
                fs,
                path,
                p.references,
                stack,
                fin.alarms.skip(p.alarms.len() as int),
                fin.errors,
            )
            &&& no_reference_nodes(fin.alarms)
        },
{
    let st = start_of(p, path, stack);
    let fin = run_expansion(st, fs, n)->0;
    let m = lemma_run_as_small_steps(st, fs, n);
    let m2 = lemma_frame_runs_to_close(st, fs, m);
    let (ns, es) = expand_refs(fs, path, p.references, 0, stack, m)->0;
    let c = closed_state(st, ns, es);
    assert(c.frames.len() == 0);
    assert(step_of(c) is None);
    assert(fin == c);
    assert(c.alarms.take(p.alarms.len() as int) =~= p.alarms);
    assert(c.alarms.skip(p.alarms.len() as int) =~= ns);
    assert(Seq::<ErrorView>::empty() + es =~= es);
    assert(expand_refs(fs, path, p.references, 0, stack, m) == Some((ns, es)));
    lemma_expand_refs_no_references(fs, path, p.references, 0, stack, m);
    lemma_concat_no_references(p.alarms, ns);
}

} // verus!
