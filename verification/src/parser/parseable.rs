//! The interface of the line parsers, and the dispatch over the parsers of a chain.
use vstd::prelude::*;
use crate::errors;
use crate::errors::ErrorView;
use crate::parser::{alarm, daily, helper, monthly, once, reference, weekly, yearly};
use crate::parser::helper::NodeView;

verus! {

pub type Input<'a> = &'a str;

pub trait Parseable {
    fn handle(&self, to_be_handled: Input) -> Result<Option<helper::Node>, errors::Error>;
}

/// Whether `r` is what the model `m` of a line parser says: `None` stands for a syntax
/// error, `Some(None)` for a line that the parser does not handle, and `Some(Some(n))` for
/// the node `n`.
pub open spec fn handle_result(
    r: Result<Option<helper::Node>, errors::Error>,
    m: Option<Option<NodeView>>,
) -> bool {
    match m {
        None => r matches Err(e) && e@ == ErrorView::Syntax,
        Some(None) => r matches Ok(None),
        Some(Some(n)) => r matches Ok(Some(x)) && x@ == n,
    }
}


/// The line parsers, one variant for each; a chain of parsers is a slice of them.
#[derive(Debug, Clone, Copy, PartialEq, Eq, Structural)]
pub enum ParserKind {
    Reference,
    Alarm,
    Once,
    Daily,
    Monthly,
    Weekly,
    Yearly,
}

/// What the parser `k` gives for a line.
pub open spec fn handle_of(k: ParserKind, s: Seq<char>) -> Option<Option<NodeView>> {
    match k {
        ParserKind::Reference => Some(reference::reference_of(s)),
        ParserKind::Alarm => alarm::alarm_of(s),
        ParserKind::Once => once::once_of(s),
        ParserKind::Daily => daily::daily_of(s),
        ParserKind::Monthly => monthly::monthly_of(s),
        ParserKind::Weekly => weekly::weekly_of(s),
        ParserKind::Yearly => yearly::yearly_of(s),
    }
}

impl Parseable for ParserKind {
    fn handle(&self, input: Input) -> (r: Result<Option<helper::Node>, errors::Error>)
        ensures
            handle_result(r, handle_of(*self, input@)),
    {
        match self {
            ParserKind::Reference => reference::ReferenceParser.handle(input),
            ParserKind::Alarm => alarm::AlarmParser.handle(input),
            ParserKind::Once => once::OnceScheduler.handle(input),
            ParserKind::Daily => daily::DailyParser.handle(input),
            ParserKind::Monthly => monthly::MonthlyParser.handle(input),
            ParserKind::Weekly => weekly::WeeklyParser.handle(input),
            ParserKind::Yearly => yearly::YearlyParser.handle(input),
        }
    }
}

} // verus!
