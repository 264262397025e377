//! White space in text content.

use crate::source::{is_white_space, kept_from, trim};
use vstd::prelude::*;

verus! {

/// A text of white space only; the empty text is one.
pub open spec fn blank(text: Seq<char>) -> bool {
    forall|i: int| 0 <= i < text.len() ==> is_white_space(#[trigger] text[i])
}

/// Whether `text` holds white space only.
pub fn is_blank(text: &str) -> (answer: bool)
    ensures
        answer == blank(text@),
{
    let kept = trim(text);
    proof {
        let start = choose|start: int| kept_from(text@, kept@, start);
        if kept@.len() > 0 {
            assert(kept@.first() == text@[start]);
        }
    }
    kept.is_empty()
}

} // verus!
