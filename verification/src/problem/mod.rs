//! Problems found while compiling, and how they are shown to users.
use vstd::prelude::*;

pub mod objects;
pub mod report;
pub mod text;

pub use objects::{CompileProblem, FilePosition, ProblemDescriptor, ProblemType};

use text::{chars_to_string, string_chars};

verus! {

/// A syntax error at `pos`: "Bad Syntax", then the parser's message on the
/// next line.
pub fn bad_syntax(pos: FilePosition, message: String) -> (r: CompileProblem)
    ensures
        r.spec_descriptors().len() == 1,
        r.spec_descriptors()[0].spec_position() == pos,
        r.spec_descriptors()[0].spec_ptype() == ProblemType::Error,
        r.spec_descriptors()[0].spec_caption() == "Bad Syntax\n"@ + message@,
{
    let mut caption = string_chars("Bad Syntax\n");
    let rest = string_chars(message.as_str());
    let ghost head = caption@;
    let mut i: usize = 0;
    while i < rest.len()
        invariant
            i <= rest@.len(),
            caption@ == head + rest@.take(i as int),
        decreases rest@.len() - i,
    {
        caption.push(rest[i]);
        i = i + 1;
        assert(caption@ =~= head + rest@.take(i as int));
    }
    assert(rest@.take(rest@.len() as int) =~= rest@);
    let caption = chars_to_string(&caption);
    let mut descriptors: Vec<ProblemDescriptor> = Vec::new();
    descriptors.push(ProblemDescriptor::new(pos, ProblemType::Error, caption.as_str()));
    CompileProblem::from_descriptors(descriptors)
}

} // verus!
