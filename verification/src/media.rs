//! Selection rule for multi-part media groups: a group presents the
//! caption (and the caption's entities) of its first part that carries
//! one.

use vstd::prelude::*;

verus! {

/// Index of the first caption that is present: every part before it
/// carries none; `None` when no part carries a caption.
pub fn first_caption_index(captions: &Vec<Option<String>>) -> (r: Option<usize>)
    ensures
        match r {
            Some(i) => i < captions@.len() && captions@[i as int] is Some && forall|j: int|
                0 <= j < i ==> captions@[j] is None,
            None => forall|j: int| 0 <= j < captions@.len() ==> captions@[j] is None,
        },
{
    let mut i: usize = 0;
    while i < captions.len()
        invariant
            i <= captions@.len(),
            forall|j: int| 0 <= j < i ==> captions@[j] is None,
        decreases captions@.len() - i,
    {
        if captions[i].is_some() {
            return Some(i);
        }
        i += 1;
    }
    None
}

} // verus!
