//! Joining rendered fragments into the final document.

use vstd::prelude::*;

verus! {

/// The text put between two consecutive fragments.
pub const SEPARATOR: &'static str = "\n\n * * * \n\n";

/// The separator as a sequence of characters.
pub open spec fn separator() -> Seq<char> {
    SEPARATOR@
}

/// The fragments in order, with `sep` between each two neighbours:
/// nothing before the first and nothing after the last.
pub open spec fn joined(fragments: Seq<Seq<char>>, sep: Seq<char>) -> Seq<char>
    decreases fragments.len(),
{
    if fragments.len() == 0 {
        Seq::empty()
    } else if fragments.len() == 1 {
        fragments[0]
    } else {
        joined(fragments.drop_last(), sep) + sep + fragments.last()
    }
}

/// Joins the fragments in order with [`SEPARATOR`].
///
/// No fragments give the empty document.
pub fn assemble(fragments: &Vec<String>) -> (document: String)
    ensures
        document@ == joined(fragments.deep_view(), separator()),
{
    let mut document = String::new();
    let mut i: usize = 0;
    while i < fragments.len()
        invariant
            i <= fragments.len(),
            document@ == joined(fragments.deep_view().take(i as int), separator()),
        decreases fragments.len() - i,
    {
        let ghost before = fragments.deep_view().take(i as int);
        let ghost after = fragments.deep_view().take(i + 1);
        assert(after.drop_last() == before);
        assert(after.last() == fragments[i as int]@);
        if i > 0 {
            document.append(SEPARATOR);
        }
        document.append(fragments[i].as_str());
        i += 1;
    }
    assert(fragments.deep_view().take(i as int) == fragments.deep_view());
    document
}

} // verus!
