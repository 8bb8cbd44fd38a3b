//! References to other files: lines of the form `- [ ] [[name]]`.
use vstd::prelude::*;
use crate::errors;
use crate::parser::{helper, parseable};
use crate::parser::helper::NodeView;
use crate::parser::parseable::handle_result;
use crate::text::{chars_of, ends_with, span_ends_with, span_starts_with, starts_with, trim, trim_span};

verus! {

#[derive(Debug)]
pub struct Reference {
    target: String,
}

impl View for Reference {
    type V = Seq<char>;

    closed spec fn view(&self) -> Seq<char> {
        self.target@
    }
}

impl Clone for Reference {
    fn clone(&self) -> (r: Self)
        ensures
            r@ == self@,
    {
        Self { target: self.target.clone() }
    }
}

impl Reference {
    pub fn new(target: String) -> (r: Self)
        ensures
            r@ == target@,
    {
        Self { target }
    }

    pub fn target(&self) -> (r: &str)
        ensures
            r@ == self@,
    {
        self.target.as_str()
    }

    /// The file name that a reference to `raw` stands for: `raw.md`.
    pub fn resolve_target(raw: &str) -> (r: String)
        ensures
            r@ == raw@ + ".md"@,
    {
        let mut s = raw.to_string();
        s.append(".md");
        s
    }
}


pub struct ReferenceParser;

/// What the reference parser gives for a line: the target between `- [ ] [[` and `]]`,
/// with `.md` appended.
pub open spec fn reference_of(s: Seq<char>) -> Option<NodeView> {
    let t = trim(s);
    let prefix = "- [ ] [["@;
    let suffix = "]]"@;
    if starts_with(t, prefix) && ends_with(t, suffix) {
        Some(NodeView::Reference(t.subrange(prefix.len() as int, t.len() - suffix.len()) + ".md"@))
    } else {
        None
    }
}

impl parseable::Parseable for ReferenceParser {
    fn handle(&self, input: parseable::Input) -> (r: Result<Option<helper::Node>, errors::Error>)
        ensures
            handle_result(r, Some(reference_of(input@))),
    {
        let v = chars_of(input);
        assert(v@.subrange(0, v@.len() as int) =~= v@);
        let (a, b) = trim_span(&v, 0, v.len());
        let prefix = "- [ ] [[";
        let suffix = "]]";
        if span_starts_with(&v, a, b, prefix) && span_ends_with(&v, a, b, suffix) {
            proof {
                reveal_strlit("- [ ] [[");
                reveal_strlit("]]");
                let t = v@.subrange(a as int, b as int);
                assert(t.take(8)[6] == '[' && t.take(8)[7] == '[');
                assert(t[6] == '[' && t[7] == '[');
                assert(t.skip(t.len() - 2)[0] == ']' && t.skip(t.len() - 2)[1] == ']');
                assert(t[t.len() - 2] == ']' && t[t.len() - 1] == ']');
                assert(t.len() >= 10);
            }
            let raw = input.substring_char(a + 8, b - 2);
            assert(raw@ =~= v@.subrange(a as int, b as int).subrange(8, (b - a) - 2));
            let target = Reference::resolve_target(raw);
            Ok(Some(helper::Node::Reference(Reference::new(target))))
        } else {
            Ok(None)
        }
    }
}

} // verus!
