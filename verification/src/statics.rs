//! The chains of line parsers that each type of file is read with.
use vstd::prelude::*;
use crate::parser::parseable::ParserKind;

verus! {

/// The parsers of an alarm file, in the order in which they are tried.
pub open spec fn alarm_chain_spec() -> Seq<ParserKind> {
    seq![
        ParserKind::Alarm,
        ParserKind::Once,
        ParserKind::Daily,
        ParserKind::Monthly,
        ParserKind::Weekly,
        ParserKind::Yearly,
    ]
}

/// The parsers of a plain file: references only.
pub open spec fn plain_chain_spec() -> Seq<ParserKind> {
    seq![ParserKind::Reference]
}

/// The parsers of a composite file: references first, then those of an alarm file.
pub open spec fn composite_chain_spec() -> Seq<ParserKind> {
    seq![ParserKind::Reference] + alarm_chain_spec()
}

pub fn alarm_chain() -> (r: Vec<ParserKind>)
    ensures
        r@ == alarm_chain_spec(),
{
    let r = vec![
        ParserKind::Alarm,
        ParserKind::Once,
        ParserKind::Daily,
        ParserKind::Monthly,
        ParserKind::Weekly,
        ParserKind::Yearly,
    ];
    assert(r@ =~= alarm_chain_spec());
    r
}

pub fn plain_chain() -> (r: Vec<ParserKind>)
    ensures
        r@ == plain_chain_spec(),
{
    let r = vec![ParserKind::Reference];
    assert(r@ =~= plain_chain_spec());
    r
}

pub fn composite_chain() -> (r: Vec<ParserKind>)
    ensures
        r@ == composite_chain_spec(),
{
    let r = vec![
        ParserKind::Reference,
        ParserKind::Alarm,
        ParserKind::Once,
        ParserKind::Daily,
        ParserKind::Monthly,
        ParserKind::Weekly,
        ParserKind::Yearly,
    ];
    assert(r@ =~= composite_chain_spec());
    r
}

} // verus!
