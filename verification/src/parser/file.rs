//! Whole files: their classification by the first line, and the result of parsing them.
use vstd::prelude::*;
use crate::errors;
use crate::parser::{helper, parseable, reference};
use crate::parser::helper::NodeView;
use crate::errors::LineErrorView;
use crate::text::{chars_of, contains_seq, contains_str, lines, lines_spans, lowercase, to_lowercase, trim, trim_span};

verus! {

#[derive(Debug, Clone, Copy, PartialEq, Eq, Structural)]
pub enum FileType {
    Alarm,
    Composite,
    Plain,
}

/// The nodes of a parsed file, split into references and the rest, and its line errors.
#[derive(Debug)]
pub struct ParsedFile {
    alarms: Vec<helper::Node>,
    references: Vec<reference::Reference>,
    errors: Vec<errors::LineError>,
}

/// The abstract value of a [`ParsedFile`].
pub struct ParsedView {
    pub alarms: Seq<NodeView>,
    pub references: Seq<Seq<char>>,
    pub errors: Seq<LineErrorView>,
}

pub open spec fn node_views(ns: Seq<helper::Node>) -> Seq<NodeView> {
    ns.map_values(|n: helper::Node| n@)
}

pub open spec fn reference_views(rs: Seq<reference::Reference>) -> Seq<Seq<char>> {
    rs.map_values(|r: reference::Reference| r@)
}

pub open spec fn line_error_views(es: Seq<errors::LineError>) -> Seq<LineErrorView> {
    es.map_values(|e: errors::LineError| e@)
}

/// The targets of the reference nodes, in order.
pub open spec fn references_of(ns: Seq<NodeView>) -> Seq<Seq<char>>
    decreases ns.len(),
{
    if ns.len() == 0 {
        seq![]
    } else {
        let prev = references_of(ns.drop_last());
        match ns.last() {
            NodeView::Reference(t) => prev.push(t),
            _ => prev,
        }
    }
}

/// The nodes that are not references, in order.
pub open spec fn non_references(ns: Seq<NodeView>) -> Seq<NodeView>
    decreases ns.len(),
{
    if ns.len() == 0 {
        seq![]
    } else {
        let prev = non_references(ns.drop_last());
        match ns.last() {
            NodeView::Reference(_) => prev,
            n => prev.push(n),
        }
    }
}

impl View for ParsedFile {
    type V = ParsedView;

    closed spec fn view(&self) -> ParsedView {
        ParsedView {
            alarms: node_views(self.alarms@),
            references: reference_views(self.references@),
            errors: line_error_views(self.errors@),
        }
    }
}

impl ParsedFile {
    pub fn new(nodes: Vec<helper::Node>, errors: Vec<errors::LineError>) -> (r: Self)
        ensures
            r@.alarms == non_references(node_views(nodes@)),
            r@.references == references_of(node_views(nodes@)),
            r@.errors == line_error_views(errors@),
    {
        let ghost ns = node_views(nodes@);
        let mut refs: Vec<reference::Reference> = Vec::new();
        let mut alarms: Vec<helper::Node> = Vec::new();
        assert(ns.take(0) =~= Seq::<NodeView>::empty());
        assert(reference_views(refs@) =~= Seq::<Seq<char>>::empty());
        assert(node_views(alarms@) =~= Seq::<NodeView>::empty());
        for node in it: nodes
            invariant
                ns == node_views(it.seq()),
                reference_views(refs@) == references_of(ns.take(it.index() as int)),
                node_views(alarms@) == non_references(ns.take(it.index() as int)),
        {
            let ghost k = it.index();
            let ghost before_r = reference_views(refs@);
            let ghost before_a = node_views(alarms@);
            assert(ns.take(k + 1).drop_last() =~= ns.take(k as int));
            assert(ns[k as int] == node@);
            match node {
                helper::Node::Reference(inner) => {
                    refs.push(inner);
                    assert(reference_views(refs@) =~= before_r.push(inner@));
                },
                other => {
                    alarms.push(other);
                    assert(node_views(alarms@) =~= before_a.push(other@));
                },
            }
        }
        assert(ns.take(ns.len() as int) =~= ns);
        Self { alarms, references: refs, errors }
    }

    pub fn alarms(&self) -> (r: &[helper::Node])
        ensures
            node_views(r@) == self@.alarms,
    {
        self.alarms.as_slice()
    }

    pub fn references(&self) -> (r: &[reference::Reference])
        ensures
            reference_views(r@) == self@.references,
    {
        self.references.as_slice()
    }

    pub fn errors(&self) -> (r: &[errors::LineError])
        ensures
            line_error_views(r@) == self@.errors,
    {
        self.errors.as_slice()
    }

    pub fn is_clean(&self) -> (r: bool)
        ensures
            r == (self@.errors.len() == 0),
    {
        self.errors.len() == 0
    }

    /// Takes the parsed file apart into its nodes that are not references, its
    /// references and its line errors.
    pub fn into_parts(self) -> (r: (Vec<helper::Node>, Vec<reference::Reference>, Vec<errors::LineError>))
        ensures
            node_views(r.0@) == self@.alarms,
            reference_views(r.1@) == self@.references,
            line_error_views(r.2@) == self@.errors,
    {
        (self.alarms, self.references, self.errors)
    }
}

/// The chain of parsers that a file of type `kind` is read with.
pub open spec fn chain_of(kind: FileType) -> Seq<parseable::ParserKind> {
    match kind {
        FileType::Alarm => crate::statics::alarm_chain_spec(),
        FileType::Composite => crate::statics::composite_chain_spec(),
        FileType::Plain => crate::statics::plain_chain_spec(),
    }
}

impl<'a> std::convert::From<&'a str> for ParsedFile {
    fn from(value: &'a str) -> (r: Self)
        ensures
            r@ == crate::parser::parsed_of(value@),
    {
        crate::parser::parse_file(value)
    }
}

/// A parsed file is described by its view, through the `ensures` of `from`, not by a
/// value that `from_spec` could name.
impl<'a> vstd::std_specs::convert::FromSpecImpl<&'a str> for ParsedFile {
    open spec fn obeys_from_spec() -> bool {
        false
    }

    open spec fn from_spec(value: &'a str) -> ParsedFile {
        arbitrary()
    }
}

/// The first line of a text, or the empty text where there is none.
pub open spec fn first_line(s: Seq<char>) -> Seq<char> {
    if lines(s).len() > 0 {
        lines(s)[0]
    } else {
        seq![]
    }
}

/// The type of a file whose trimmed first line, lowercased, is `low`.
pub open spec fn file_type_of(low: Seq<char>) -> FileType {
    if contains_seq(low, "alarm"@) {
        FileType::Alarm
    } else if contains_seq(low, "schedule"@) {
        FileType::Composite
    } else {
        FileType::Plain
    }
}

/// The type of a file whose trimmed and lowercased first line is `first`.
pub fn classify_lowercase(first: &str) -> (r: FileType)
    ensures
        r == file_type_of(first@),
{
    let v = chars_of(first);
    if contains_str(&v, "alarm") {
        FileType::Alarm
    } else if contains_str(&v, "schedule") {
        FileType::Composite
    } else {
        FileType::Plain
    }
}

pub fn classify_file(input: parseable::Input) -> (r: FileType)
    ensures
        r == file_type_of(lowercase(trim(first_line(input@)))),
{
    let v = chars_of(input);
    assert(v@.subrange(0, v@.len() as int) =~= v@);
    let spans = lines_spans(&v, 0, v.len());
    let (lo, hi) = if spans.len() > 0 {
        assert(crate::text::spans_text(v@, spans@)[0] == v@.subrange(spans@[0].0 as int, spans@[0].1 as int));
        spans[0]
    } else {
        assert(v@.subrange(0, 0) =~= Seq::<char>::empty());
        (0, 0)
    };
    let (a, b) = trim_span(&v, lo, hi);
    let first = input.substring_char(a, b);
    let lowered = to_lowercase(first);
    classify_lowercase(lowered.as_str())
}


/// Every node of a file is either a reference or one of its other nodes.
pub proof fn lemma_nodes_partitioned(ns: Seq<NodeView>)
    ensures
        references_of(ns).len() + non_references(ns).len() == ns.len(),
    decreases ns.len(),
{
    if ns.len() > 0 {
        lemma_nodes_partitioned(ns.drop_last());
    }
}

} // verus!
