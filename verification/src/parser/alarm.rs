//! Alarm lines (`alarm: title (kind)`) and the schedules attached to alarms.
use vstd::prelude::*;
use crate::errors;
use crate::parser::{helper, parseable, time};
use crate::parser::helper::{last_unescaped, last_unescaped_span, strip_prefix_span, NodeView};
use crate::parser::parseable::handle_result;
use crate::text::{
    chars_of, lowercase, replace_all, replace_chars, span_eq, string_of, strip_prefix,
    strip_suffix, to_lowercase, trim, trim_span,
};

verus! {

#[derive(Debug)]
pub enum AlarmType {
    Default,
    Insistent,
    Important,
    Personalized(String),
}

/// The abstract value of an [`AlarmType`].
pub enum AlarmTypeView {
    Default,
    Insistent,
    Important,
    Personalized(Seq<char>),
}

impl View for AlarmType {
    type V = AlarmTypeView;

    open spec fn view(&self) -> AlarmTypeView {
        match self {
            AlarmType::Default => AlarmTypeView::Default,
            AlarmType::Insistent => AlarmTypeView::Insistent,
            AlarmType::Important => AlarmTypeView::Important,
            AlarmType::Personalized(t) => AlarmTypeView::Personalized(t@),
        }
    }
}

/// The kind that a lowercased kind name gives.
pub open spec fn kind_named(low: Seq<char>) -> AlarmTypeView {
    if low == "insistent"@ {
        AlarmTypeView::Insistent
    } else if low == "important"@ {
        AlarmTypeView::Important
    } else {
        AlarmTypeView::Personalized(low)
    }
}

/// The text that names a kind of alarm to the alarm runner.
pub open spec fn kind_text_of(k: AlarmTypeView) -> Seq<char> {
    match k {
        AlarmTypeView::Default => "default"@,
        AlarmTypeView::Insistent => "insistent"@,
        AlarmTypeView::Important => "important"@,
        AlarmTypeView::Personalized(t) => lowercase(t),
    }
}

impl AlarmType {
    /// The name of this kind, in lowercase.
    pub fn kind_text(&self) -> (r: String)
        ensures
            r@ == kind_text_of(self@),
    {
        match self {
            Self::Default => "default".to_string(),
            Self::Insistent => "insistent".to_string(),
            Self::Important => "important".to_string(),
            Self::Personalized(title) => to_lowercase(title.as_str()),
        }
    }

    /// The kind that an already lowercased kind name gives.
    pub fn from_lowercase(lowered: String) -> (r: Self)
        ensures
            r@ == kind_named(lowered@),
    {
        let v = chars_of(lowered.as_str());
        let n = v.len();
        assert(v@.subrange(0, n as int) =~= v@);
        if span_eq(&v, 0, n, "insistent") {
            AlarmType::Insistent
        } else if span_eq(&v, 0, n, "important") {
            AlarmType::Important
        } else {
            AlarmType::Personalized(lowered)
        }
    }
}

impl Clone for AlarmType {
    fn clone(&self) -> (r: Self)
        ensures
            r@ == self@,
    {
        match self {
            AlarmType::Default => AlarmType::Default,
            AlarmType::Insistent => AlarmType::Insistent,
            AlarmType::Important => AlarmType::Important,
            AlarmType::Personalized(t) => AlarmType::Personalized(t.clone()),
        }
    }
}

#[derive(Debug)]
pub struct Alarm {
    name: String,
    kind: AlarmType,
}

impl View for Alarm {
    type V = (Seq<char>, AlarmTypeView);

    closed spec fn view(&self) -> (Seq<char>, AlarmTypeView) {
        (self.name@, self.kind@)
    }
}

impl Clone for Alarm {
    fn clone(&self) -> (r: Self)
        ensures
            r@ == self@,
    {
        Self { name: self.name.clone(), kind: self.kind.clone() }
    }
}

impl Alarm {
    pub fn new(name: &str, kind: AlarmType) -> (r: Self)
        ensures
            r@ == (name@, kind@),
    {
        Self { name: name.to_string(), kind }
    }

    pub fn name(&self) -> (r: &str)
        ensures
            r@ == self@.0,
    {
        self.name.as_str()
    }

    pub fn kind(&self) -> (r: &AlarmType)
        ensures
            r@ == self@.1,
    {
        &self.kind
    }
}

#[derive(Debug, Clone, Copy)]
pub struct AlarmSchedule {
    at: Option<time::DateTimeSpec>,
    repeat: helper::RepeatSpec,
}

/// The abstract value of an [`AlarmSchedule`].
pub struct ScheduleView {
    pub at: Option<(time::DateSpec, time::TimeSpec)>,
    pub repeat: helper::RepeatView,
}

/// The abstract value of an optional date and time.
pub open spec fn at_view(at: Option<time::DateTimeSpec>) -> Option<(time::DateSpec, time::TimeSpec)> {
    match at {
        Some(dt) => Some(dt@),
        None => None,
    }
}

impl View for AlarmSchedule {
    type V = ScheduleView;

    closed spec fn view(&self) -> ScheduleView {
        ScheduleView { at: at_view(self.at), repeat: self.repeat@ }
    }
}

impl AlarmSchedule {
    pub fn new(at: Option<time::DateTimeSpec>, repeat: helper::RepeatSpec) -> (r: Self)
        ensures
            r@ == (ScheduleView { at: at_view(at), repeat: repeat@ }),
    {
        Self { at, repeat }
    }

    pub fn at(&self) -> (r: Option<time::DateTimeSpec>)
        ensures
            at_view(r) == self@.at,
    {
        self.at
    }

    pub fn repeat(&self) -> (r: helper::RepeatSpec)
        ensures
            r@ == self@.repeat,
    {
        self.repeat
    }
}


pub struct AlarmParser;

/// A title with its escaped parentheses (a backslash before `(` or `)`) turned into
/// plain ones.
pub open spec fn unescape(s: Seq<char>) -> Seq<char> {
    replace_all(replace_all(s, "\\("@, "("@), "\\)"@, ")"@)
}

/// The trimmed text after `alarm:` or `title:` at the start of the trimmed line, if any.
pub open spec fn alarm_rest(s: Seq<char>) -> Option<Seq<char>> {
    let t = trim(s);
    match strip_prefix(t, "alarm:"@) {
        Some(r) => Some(trim(r)),
        None => match strip_prefix(t, "title:"@) {
            Some(r) => Some(trim(r)),
            None => None,
        },
    }
}

/// What the alarm parser gives for a line. The kind, if any, stands in parentheses at the
/// end, after the last unescaped `(`; the title is what comes before it.
pub open spec fn alarm_of(s: Seq<char>) -> Option<Option<NodeView>> {
    match alarm_rest(s) {
        None => Some(None),
        Some(r) => if r.len() == 0 {
            None
        } else {
            match last_unescaped(r, '(') {
                Some(open) => {
                    let name = trim(r.take(open));
                    match strip_prefix(trim(r.skip(open)), seq!['(']) {
                        None => None,
                        Some(a) => match strip_suffix(a, seq![')']) {
                            None => None,
                            Some(b) => {
                                let raw = trim(b);
                                if name.len() == 0 || raw.len() == 0 {
                                    None
                                } else {
                                    Some(
                                        Some(NodeView::Alarm(unescape(name), kind_named(lowercase(raw)))),
                                    )
                                }
                            },
                        },
                    }
                },
                None => Some(Some(NodeView::Alarm(unescape(r), AlarmTypeView::Default))),
            }
        },
    }
}

/// The title made of `v[lo..hi]` with its escaped parentheses unescaped.
fn unescaped_title(v: &Vec<char>, lo: usize, hi: usize) -> (r: String)
    requires
        lo <= hi <= v@.len(),
    ensures
        r@ == unescape(v@.subrange(lo as int, hi as int)),
{
    let mut part: Vec<char> = Vec::new();
    let mut i = lo;
    while i < hi
        invariant
            lo <= i <= hi <= v@.len(),
            part@ == v@.subrange(lo as int, i as int),
        decreases hi - i,
    {
        part.push(v[i]);
        i = i + 1;
        assert(part@ =~= v@.subrange(lo as int, i as int));
    }
    proof {
        reveal_strlit("\\(");
        reveal_strlit("\\)");
    }
    let once = replace_chars(&part, "\\(", "(");
    let twice = replace_chars(&once, "\\)", ")");
    assert(twice@.subrange(0, twice@.len() as int) =~= twice@);
    string_of(&twice, 0, twice.len())
}

impl parseable::Parseable for AlarmParser {
    fn handle(&self, input: parseable::Input) -> (r: Result<Option<helper::Node>, errors::Error>)
        ensures
            handle_result(r, alarm_of(input@)),
    {
        let v = chars_of(input);
        assert(v@.subrange(0, v@.len() as int) =~= v@);
        let (a, b) = trim_span(&v, 0, v.len());
        let start = match strip_prefix_span(&v, a, b, "alarm:") {
            Some(k) => k,
            None => match strip_prefix_span(&v, a, b, "title:") {
                Some(k) => k,
                None => {
                    return Ok(None);
                },
            },
        };
        let (c, d) = trim_span(&v, start, b);
        let ghost r = v@.subrange(c as int, d as int);
        if c == d {
            return Err(errors::Error::Syntax);
        }
        let (name, kind) = match last_unescaped_span(&v, c, d, '(') {
            Some(open_rel) => {
                let open = c + open_rel;
                assert(r.take(open_rel as int) =~= v@.subrange(c as int, open as int));
                assert(r.skip(open_rel as int) =~= v@.subrange(open as int, d as int));
                let (n1, n2) = trim_span(&v, c, open);
                let (t1, t2) = trim_span(&v, open, d);
                let ghost tail = v@.subrange(t1 as int, t2 as int);
                if !(t1 < t2 && v[t1] == '(') {
                    assert(!crate::text::starts_with(tail, seq!['('])) by {
                        if tail.len() >= 1 {
                            assert(tail.take(1)[0] == tail[0]);
                        }
                    }
                    return Err(errors::Error::Syntax);
                }
                assert(tail.take(1) =~= seq!['(']);
                assert(tail.skip(1) =~= v@.subrange(t1 + 1, t2 as int));
                let ghost inner = tail.skip(1);
                if !(t2 > t1 + 1 && v[t2 - 1] == ')') {
                    assert(!crate::text::ends_with(inner, seq![')'])) by {
                        if inner.len() >= 1 {
                            assert(inner.skip(inner.len() - 1)[0] == inner[inner.len() - 1]);
                        }
                    }
                    return Err(errors::Error::Syntax);
                }
                assert(inner.skip(inner.len() - 1) =~= seq![')']);
                assert(inner.take(inner.len() - 1) =~= v@.subrange(t1 + 1, t2 - 1));
                let (r1, r2) = trim_span(&v, t1 + 1, t2 - 1);
                if n1 == n2 || r1 == r2 {
                    return Err(errors::Error::Syntax);
                }
                let raw = string_of(&v, r1, r2);
                let lowered = to_lowercase(raw.as_str());
                let kind = AlarmType::from_lowercase(lowered);
                (unescaped_title(&v, n1, n2), kind)
            },
            None => (unescaped_title(&v, c, d), AlarmType::Default),
        };
        Ok(Some(helper::Node::Alarm(Alarm::new(name.as_str(), kind))))
    }
}


/// `u` with a backslash before each parenthesis: how a title that holds parentheses is
/// written on an alarm line.
pub open spec fn escape_parens(u: Seq<char>) -> Seq<char>
    decreases u.len(),
{
    if u.len() == 0 {
        seq![]
    } else if u[0] == '(' || u[0] == ')' {
        seq!['\\', u[0]] + escape_parens(u.drop_first())
    } else {
        seq![u[0]] + escape_parens(u.drop_first())
    }
}

/// `u` with a backslash before each closing parenthesis only.
spec fn escape_closing(u: Seq<char>) -> Seq<char>
    decreases u.len(),
{
    if u.len() == 0 {
        seq![]
    } else if u[0] == ')' {
        seq!['\\', ')'] + escape_closing(u.drop_first())
    } else {
        seq![u[0]] + escape_closing(u.drop_first())
    }
}

pub open spec fn has_no_backslash(u: Seq<char>) -> bool {
    forall|i: int| 0 <= i < u.len() ==> #[trigger] u[i] != '\\'
}

proof fn lemma_unescape_opening(u: Seq<char>)
    requires
        has_no_backslash(u),
    ensures
        replace_all(escape_parens(u), "\\("@, "("@) == escape_closing(u),
    decreases u.len(),
{
    reveal_strlit("\\(");
    reveal_strlit("(");
    if u.len() > 0 {
        let rest = u.drop_first();
        assert forall|i: int| 0 <= i < rest.len() implies #[trigger] rest[i] != '\\' by {
            assert(rest[i] == u[i + 1]);
        }
        lemma_unescape_opening(rest);
        let e = escape_parens(u);
        let er = escape_parens(rest);
        assert(u[0] != '\\');
        if u[0] == '(' {
            assert(e == seq!['\\', '('] + er);
            assert(e.take(2) =~= "\\("@);
            assert(crate::text::starts_with(e, "\\("@));
            assert(e.skip(2) =~= er);
            assert("("@ =~= seq!['(']);
            assert(escape_closing(u) =~= seq!['('] + escape_closing(rest));
            assert(replace_all(e, "\\("@, "("@) == "("@ + replace_all(e.skip(2), "\\("@, "("@));
        } else if u[0] == ')' {
            assert(e == seq!['\\', ')'] + er);
            assert(!crate::text::starts_with(e, "\\("@)) by {
                assert(e.take(2)[1] == ')');
                assert("\\("@[1] == '(');
            }
            let d = e.drop_first();
            assert(d =~= seq![')'] + er);
            assert(!crate::text::starts_with(d, "\\("@)) by {
                if d.len() >= 2 {
                    assert(d.take(2)[0] == ')');
                    assert("\\("@[0] == '\\');
                }
            }
            assert(d.drop_first() =~= er);
            assert(escape_closing(u) =~= seq!['\\', ')'] + escape_closing(rest));
            assert(replace_all(e, "\\("@, "("@) == seq![e[0]] + replace_all(d, "\\("@, "("@));
            assert(replace_all(d, "\\("@, "("@) == seq![d[0]] + replace_all(er, "\\("@, "("@));
            assert(seq![e[0]] + (seq![d[0]] + replace_all(er, "\\("@, "("@)) =~= seq!['\\', ')']
                + escape_closing(rest));
        } else {
            assert(e == seq![u[0]] + er);
            assert(!crate::text::starts_with(e, "\\("@)) by {
                if e.len() >= 2 {
                    assert(e.take(2)[0] == u[0]);
                    assert("\\("@[0] == '\\');
                }
            }
            assert(e.drop_first() =~= er);
            assert(escape_closing(u) =~= seq![u[0]] + escape_closing(rest));
            assert(replace_all(e, "\\("@, "("@) == seq![e[0]] + replace_all(er, "\\("@, "("@));
        }
    }
}

proof fn lemma_unescape_closing(u: Seq<char>)
    requires
        has_no_backslash(u),
    ensures
        replace_all(escape_closing(u), "\\)"@, ")"@) == u,
    decreases u.len(),
{
    reveal_strlit("\\)");
    reveal_strlit(")");
    if u.len() > 0 {
        let rest = u.drop_first();
        assert forall|i: int| 0 <= i < rest.len() implies #[trigger] rest[i] != '\\' by {
            assert(rest[i] == u[i + 1]);
        }
        lemma_unescape_closing(rest);
        let e = escape_closing(u);
        let er = escape_closing(rest);
        assert(u[0] != '\\');
        if u[0] == ')' {
            assert(e == seq!['\\', ')'] + er);
            assert(e.take(2) =~= "\\)"@);
            assert(crate::text::starts_with(e, "\\)"@));
            assert(e.skip(2) =~= er);
            assert(")"@ + rest =~= u);
        } else {
            assert(e == seq![u[0]] + er);
            assert(!crate::text::starts_with(e, "\\)"@)) by {
                if e.len() >= 2 {
                    assert(e.take(2)[0] == u[0]);
                    assert("\\)"@[0] == '\\');
                }
            }
            assert(e.drop_first() =~= er);
            assert(seq![u[0]] + rest =~= u);
        }
    }
}

/// Every `(` of an escaped title has exactly one backslash right before it, and the
/// escaped title never starts with `(`.
proof fn lemma_escaped_openings(u: Seq<char>)
    requires
        has_no_backslash(u),
    ensures
        forall|j: int|
            0 <= j < escape_parens(u).len() && #[trigger] escape_parens(u)[j] == '(' ==> j >= 1
                && escape_parens(u)[j - 1] == '\\' && (j >= 2 ==> escape_parens(u)[j - 2]
                != '\\'),
        escape_parens(u).len() > 0 ==> escape_parens(u)[0] != '(',
        u.len() > 0 ==> escape_parens(u).len() > 0 && escape_parens(u).last() == u.last(),
        u.len() > 0 ==> escape_parens(u)[0] == u[0] || escape_parens(u)[0] == '\\',
    decreases u.len(),
{
    if u.len() > 0 {
        let rest = u.drop_first();
        assert forall|i: int| 0 <= i < rest.len() implies #[trigger] rest[i] != '\\' by {
            assert(rest[i] == u[i + 1]);
        }
        lemma_escaped_openings(rest);
        let e = escape_parens(u);
        let er = escape_parens(rest);
        let piece = if u[0] == '(' || u[0] == ')' {
            seq!['\\', u[0]]
        } else {
            seq![u[0]]
        };
        assert(e == piece + er);
        assert(piece.last() == u[0]);
        assert(u[0] != '\\');
        assert forall|j: int|
            0 <= j < e.len() && #[trigger] e[j] == '(' implies j >= 1 && e[j - 1] == '\\' && (j
                >= 2 ==> e[j - 2] != '\\') by {
            let pl = piece.len() as int;
            if j < pl {
                assert(e[j] == piece[j]);
                assert(j == 1 && piece[0] == '\\');
                assert(e[0] == piece[0]);
            } else {
                let jj = j - pl;
                assert(e[j] == er[jj]);
                assert(jj >= 1);
                assert(e[j - 1] == er[jj - 1]);
                if jj >= 2 {
                    assert(e[j - 2] == er[jj - 2]);
                } else {
                    assert(e[j - 2] == piece[pl - 1]);
                }
            }
        }
        if rest.len() > 0 {
            assert(e.last() == er.last());
            assert(rest.last() == u.last());
        } else {
            assert(er.len() == 0);
            assert(e =~= piece);
        }
        assert(e[0] == piece[0]);
    }
}

proof fn lemma_trim_unchanged(x: Seq<char>)
    requires
        x.len() > 0,
        !crate::text::is_ws(x[0]),
        !crate::text::is_ws(x.last()),
    ensures
        trim(x) == x,
{
    assert(crate::text::trim_start(x) == x);
    assert(crate::text::trim_end(x) == x);
}

proof fn lemma_below_skips(s: Seq<char>, c: char, m: int, n: int)
    requires
        0 <= m <= n <= s.len(),
        forall|j: int| m <= j < n ==> #[trigger] s[j] != c,
    ensures
        helper::last_unescaped_below(s, c, n) == helper::last_unescaped_below(s, c, m),
    decreases n - m,
{
    if m < n {
        assert(s[n - 1] != c);
        lemma_below_skips(s, c, m, n - 1);
    }
}

/// A title is written with a backslash before each of its parentheses, and reads back
/// as the title itself, whether or not a kind in parentheses follows it: the line
/// `alarm: T` gives an alarm titled `u` of the default kind, and `alarm: T (k)` gives
/// an alarm titled `u` of the kind that `k` names, where `T` is `u` escaped.
pub proof fn lemma_escaped_title_reads_back(u: Seq<char>, k: Seq<char>)
    requires
        u.len() > 0,
        !crate::text::is_ws(u[0]),
        !crate::text::is_ws(u.last()),
        has_no_backslash(u),
        k.len() > 0,
        !crate::text::is_ws(k[0]),
        !crate::text::is_ws(k.last()),
        forall|i: int| 0 <= i < k.len() ==> #[trigger] k[i] != '(',
    ensures
        alarm_of("alarm: "@ + escape_parens(u)) == Some(
            Some(NodeView::Alarm(u, AlarmTypeView::Default)),
        ),
        alarm_of("alarm: "@ + escape_parens(u) + " ("@ + k + ")"@) == Some(
            Some(NodeView::Alarm(u, kind_named(lowercase(k)))),
        ),
{
    reveal_strlit("alarm: ");
    reveal_strlit("alarm:");
    reveal_strlit(" (");
    reveal_strlit(")");
    reveal_strlit("title:");
    let e = escape_parens(u);
    lemma_escaped_openings(u);
    lemma_unescape_opening(u);
    lemma_unescape_closing(u);
    assert(unescape(e) == u);
    assert(!crate::text::is_ws('\\'));
    assert(!crate::text::is_ws(e[0]));
    assert(!crate::text::is_ws(e.last()));
    // no unescaped `(` in the escaped title
    crate::parser::helper::lemma_last_unescaped_is_last(e, '(');
    assert(helper::last_unescaped(e, '(') is None) by {
        if let Some(i) = helper::last_unescaped(e, '(') {
            assert(e[i] == '(');
            assert(helper::backslashes_before(e, i - 1) == 0);
            assert(helper::backslashes_before(e, i) == 1);
        }
    }
    // the line without a kind
    let l2 = "alarm: "@ + e;
    assert(l2[0] == 'a');
    assert(l2.last() == e.last());
    lemma_trim_unchanged(l2);
    assert(l2.take(6) =~= "alarm:"@);
    let a2 = l2.skip(6);
    assert(a2 =~= seq![' '] + e);
    assert(crate::text::trim_start(a2) == crate::text::trim_start(a2.drop_first()));
    assert(a2.drop_first() =~= e);
    lemma_trim_unchanged(e);
    assert(crate::text::trim_start(e) == e);
    assert(trim(a2) == e);
    assert(alarm_rest(l2) == Some(e));
    // the line with a kind
    let l1 = "alarm: "@ + e + " ("@ + k + ")"@;
    let r1 = e + seq![' ', '('] + k + seq![')'];
    assert(l1[0] == 'a');
    assert(l1.last() == ')');
    lemma_trim_unchanged(l1);
    assert(l1.take(6) =~= "alarm:"@);
    let a1 = l1.skip(6);
    assert(a1 =~= seq![' '] + r1);
    assert(crate::text::trim_start(a1) == crate::text::trim_start(a1.drop_first()));
    assert(a1.drop_first() =~= r1);
    assert(r1[0] == e[0]);
    assert(r1.last() == ')');
    lemma_trim_unchanged(r1);
    assert(crate::text::trim_start(r1) == r1);
    assert(trim(a1) == r1);
    assert(alarm_rest(l1) == Some(r1));
    let open = e.len() as int + 1;
    assert forall|j: int| open + 1 <= j < r1.len() implies #[trigger] r1[j] != '(' by {
        if j < r1.len() - 1 {
            assert(r1[j] == k[j - open - 1]);
        }
    }
    lemma_below_skips(r1, '(', open + 1, r1.len() as int);
    assert(r1[open] == '(');
    assert(r1[open - 1] == ' ');
    assert(helper::backslashes_before(r1, open) == 0);
    assert(helper::unescaped_at(r1, '(', open));
    assert(helper::last_unescaped(r1, '(') == Some(open));
    let nm = r1.take(open);
    assert(nm =~= e + seq![' ']);
    assert(crate::text::trim_start(nm) == nm) by {
        assert(nm[0] == e[0]);
    }
    assert(crate::text::trim_end(nm) == crate::text::trim_end(e)) by {
        assert(nm.drop_last() =~= e);
    }
    assert(trim(nm) == e);
    let tl = r1.skip(open);
    assert(tl =~= seq!['('] + k + seq![')']);
    lemma_trim_unchanged(tl);
    assert(tl.take(1) =~= seq!['(']);
    let b = tl.skip(1);
    assert(b =~= k + seq![')']);
    assert(b.skip(b.len() - 1) =~= seq![')']);
    assert(b.take(b.len() - 1) =~= k);
    lemma_trim_unchanged(k);
}

} // verus!
