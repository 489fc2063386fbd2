//! A vector as text.
use vstd::prelude::*;
use vstd::string::{to_string_from_display_ensures, StringExecFns};
use core::fmt::Display;
use crate::vector::Vector;

verus! {

/// The texts `parts` in a row, each between a space and a comma.
pub open spec fn listed(parts: Seq<String>) -> Seq<char>
    decreases parts.len(),
{
    if parts.len() == 0 {
        Seq::empty()
    } else {
        listed(parts.drop_last()) + seq![' '] + parts.last()@ + seq![',']
    }
}

/// The text of a vector whose elements have the texts `parts`: the texts
/// in a row between an opening bracket and a space with a closing bracket.
pub open spec fn bracketed(parts: Seq<String>) -> Seq<char> {
    seq!['['] + listed(parts) + seq![' ', ']']
}

impl<T, const DIMS: usize> Vector<T, DIMS> where T: Display {
    /// The vector as text: an opening bracket, each element as it displays
    /// itself between a space and a comma, a space, and a closing bracket.
    #[inline]
    pub fn to_string(&self) -> (r: String)
        ensures
            exists|parts: Seq<String>|
                {
                    &&& parts.len() == DIMS
                    &&& forall|i: int|
                        0 <= i < DIMS ==> to_string_from_display_ensures::<T>(
                            &self@[i],
                            #[trigger] parts[i],
                        )
                    &&& r@ == bracketed(parts)
                },
    {
        let mut text = String::from_str("[");
        let ghost mut parts: Seq<String> = Seq::empty();
        proof {
            reveal_strlit("[");
            assert(text@ =~= seq!['['] + listed(parts));
        }
        for i in 0..DIMS
            invariant
                parts.len() == i,
                forall|j: int|
                    0 <= j < i ==> to_string_from_display_ensures::<T>(
                        &self@[j],
                        #[trigger] parts[j],
                    ),
                text@ == seq!['['] + listed(parts),
        {
            let piece = self.vals[i].to_string();
            text.append(" ");
            text.append(piece.as_str());
            text.append(",");
            proof {
                reveal_strlit(" ");
                reveal_strlit(",");
                let longer = parts.push(piece);
                assert(longer.drop_last() =~= parts);
                assert(text@ =~= seq!['['] + listed(longer));
                parts = longer;
            }
        }
        text.append(" ]");
        proof {
            reveal_strlit(" ]");
            assert(text@ =~= bracketed(parts));
        }
        text
    }
}

} // verus!
