//! The line parsers of the scheduler's Markdown files.
use vstd::prelude::*;
use crate::errors;
use crate::errors::{ErrorView, LineErrorView};
use crate::parser::file::{chain_of, FileType};
use crate::parser::helper::NodeView;
use crate::parser::parseable::{handle_of, handle_result, Parseable, ParserKind};
use crate::text::{chars_of, lines, lines_spans, spans_text, trim, trim_span};

pub mod alarm;
pub mod daily;
pub mod file;
pub mod helper;
pub mod monthly;
pub mod once;
pub mod parseable;
pub mod reference;
pub mod time;
pub mod weekly;
pub mod yearly;

verus! {

/// What the first parser of the chain that handles a line gives for it; a syntax error
/// ends the search.
pub open spec fn first_handled(chain: Seq<ParserKind>, s: Seq<char>) -> Option<Option<NodeView>>
    decreases chain.len(),
{
    if chain.len() == 0 {
        Some(None)
    } else {
        match handle_of(chain[0], s) {
            Some(None) => first_handled(chain.drop_first(), s),
            other => other,
        }
    }
}

/// What `parse_with` gives for a line: nothing for a blank line, else what the first
/// parser that handles it gives.
pub open spec fn parse_with_of(chain: Seq<ParserKind>, s: Seq<char>) -> Option<Option<NodeView>> {
    if trim(s).len() == 0 {
        Some(None)
    } else {
        first_handled(chain, s)
    }
}

/// The nodes that the lines give, in order.
pub open spec fn line_nodes(chain: Seq<ParserKind>, ls: Seq<Seq<char>>) -> Seq<NodeView>
    decreases ls.len(),
{
    if ls.len() == 0 {
        seq![]
    } else {
        let prev = line_nodes(chain, ls.drop_last());
        match parse_with_of(chain, ls.last()) {
            Some(Some(n)) => prev.push(n),
            _ => prev,
        }
    }
}

/// The syntax errors of the lines, each with the line's index and text, in order.
pub open spec fn line_errors(chain: Seq<ParserKind>, ls: Seq<Seq<char>>) -> Seq<LineErrorView>
    decreases ls.len(),
{
    if ls.len() == 0 {
        seq![]
    } else {
        let prev = line_errors(chain, ls.drop_last());
        match parse_with_of(chain, ls.last()) {
            None => prev.push(
                LineErrorView {
                    index: (ls.len() - 1) as usize,
                    line: ls.last(),
                    error: ErrorView::Syntax,
                },
            ),
            _ => prev,
        }
    }
}

/// The chain of parsers that a text is read with, by its first line.
pub open spec fn chain_for(s: Seq<char>) -> Seq<ParserKind> {
    chain_of(file::file_type_of(crate::text::lowercase(trim(file::first_line(s)))))
}

/// What parsing a whole text gives: its lines are read with the chain of its file type.
pub open spec fn parsed_of(s: Seq<char>) -> file::ParsedView {
    let ns = line_nodes(chain_for(s), lines(s));
    file::ParsedView {
        alarms: file::non_references(ns),
        references: file::references_of(ns),
        errors: line_errors(chain_for(s), lines(s)),
    }
}

pub fn parse_file(input: &str) -> (r: file::ParsedFile)
    ensures
        r@ == parsed_of(input@),
{
    let kind = file::classify_file(input);
    let chain = match kind {
        FileType::Alarm => crate::statics::alarm_chain(),
        FileType::Composite => crate::statics::composite_chain(),
        FileType::Plain => crate::statics::plain_chain(),
    };
    let v = chars_of(input);
    assert(v@.subrange(0, v@.len() as int) =~= v@);
    let spans = lines_spans(&v, 0, v.len());
    let ghost ls = spans_text(v@, spans@);
    let mut nodes: Vec<helper::Node> = Vec::new();
    let mut errs: Vec<errors::LineError> = Vec::new();
    let mut i: usize = 0;
    assert(ls.take(0) =~= Seq::<Seq<char>>::empty());
    assert(file::node_views(nodes@) =~= Seq::<NodeView>::empty());
    assert(file::line_error_views(errs@) =~= Seq::<LineErrorView>::empty());
    while i < spans.len()
        invariant
            i <= spans@.len(),
            v@ == input@,
            ls == spans_text(v@, spans@),
            ls == lines(input@),
            crate::text::spans_within(spans@, 0, v@.len() as int),
            chain@ == chain_of(file::file_type_of(
                crate::text::lowercase(trim(file::first_line(input@))),
            )),
            file::node_views(nodes@) == line_nodes(chain@, ls.take(i as int)),
            file::line_error_views(errs@) == line_errors(chain@, ls.take(i as int)),
        decreases spans@.len() - i,
    {
        let (a, b) = spans[i];
        let line = input.substring_char(a, b);
        assert(line@ == ls[i as int]);
        assert(ls.take(i + 1).drop_last() =~= ls.take(i as int));
        assert(ls.take(i + 1).last() == ls[i as int]);
        let ghost before_n = file::node_views(nodes@);
        let ghost before_e = file::line_error_views(errs@);
        match parse_with(chain.as_slice(), line) {
            Ok(Some(node)) => {
                nodes.push(node);
                assert(file::node_views(nodes@) =~= before_n.push(node@));
                assert(file::line_error_views(errs@) =~= before_e);
            },
            Ok(None) => {},
            Err(error) => {
                let le = errors::LineError::new(i, line.to_string(), error);
                errs.push(le);
                assert(file::line_error_views(errs@) =~= before_e.push(le@));
            },
        }
        i = i + 1;
    }
    assert(ls.take(i as int) =~= ls);
    file::ParsedFile::new(nodes, errs)
}

pub fn parse_with(parsers: &[ParserKind], input: &str) -> (r: Result<Option<helper::Node>, errors::Error>)
    ensures
        handle_result(r, parse_with_of(parsers@, input@)),
{
    let v = chars_of(input);
    assert(v@.subrange(0, v@.len() as int) =~= v@);
    let (a, b) = trim_span(&v, 0, v.len());
    if a == b {
        return Ok(None);
    }
    let mut i: usize = 0;
    assert(parsers@.skip(0) =~= parsers@);
    while i < parsers.len()
        invariant
            i <= parsers@.len(),
            trim(input@).len() != 0,
            first_handled(parsers@, input@) == first_handled(parsers@.skip(i as int), input@),
        decreases parsers@.len() - i,
    {
        let parser = parsers[i];
        assert(parsers@.skip(i as int).drop_first() =~= parsers@.skip(i + 1));
        assert(parsers@.skip(i as int)[0] == parser);
        match parser.handle(input) {
            Ok(Some(node)) => {
                return Ok(Some(node));
            },
            Ok(None) => {},
            Err(e) => {
                return Err(e);
            },
        }
        i = i + 1;
    }
    assert(parsers@.skip(i as int) =~= Seq::<ParserKind>::empty());
    Ok(None)
}


/// A blank line gives neither a node nor an error, whatever the chain.
pub proof fn lemma_blank_line_ignored(chain: Seq<ParserKind>, s: Seq<char>)
    requires
        trim(s).len() == 0,
    ensures
        parse_with_of(chain, s) == Some(Option::<NodeView>::None),
{
}


proof fn lemma_plain_chain_no_errors(ls: Seq<Seq<char>>)
    ensures
        line_errors(crate::statics::plain_chain_spec(), ls).len() == 0,
    decreases ls.len(),
{
    if ls.len() > 0 {
        lemma_plain_chain_no_errors(ls.drop_last());
        let chain = crate::statics::plain_chain_spec();
        assert(chain[0] == ParserKind::Reference);
        assert(chain.drop_first().len() == 0);
        assert(first_handled(chain.drop_first(), ls.last()) == Some(Option::<NodeView>::None));
        assert(first_handled(chain, ls.last()) is Some);
    }
}

/// A plain file, whose only parser reads references, never has a line error: its
/// parse is always clean.
pub proof fn lemma_plain_files_are_clean(s: Seq<char>)
    requires
        file::file_type_of(crate::text::lowercase(trim(file::first_line(s)))) == FileType::Plain,
    ensures
        parsed_of(s).errors.len() == 0,
{
    lemma_plain_chain_no_errors(lines(s));
}


/// A line that the reference parser does not take gives in a composite file what it
/// gives in an alarm file: the composite chain is the reference parser followed by the
/// alarm chain.
pub proof fn lemma_composite_chain_falls_back_to_alarm_chain(s: Seq<char>)
    requires
        reference::reference_of(s) is None,
    ensures
        first_handled(crate::statics::composite_chain_spec(), s) == first_handled(
            crate::statics::alarm_chain_spec(),
            s,
        ),
        parse_with_of(crate::statics::composite_chain_spec(), s) == parse_with_of(
            crate::statics::alarm_chain_spec(),
            s,
        ),
{
    let c = crate::statics::composite_chain_spec();
    assert(c[0] == ParserKind::Reference);
    assert(c.drop_first() =~= crate::statics::alarm_chain_spec());
}

} // verus!
