//! Helpers on strings.
use vstd::prelude::*;
use vstd::std_specs::iter::IteratorSpec;

verus! {

/// Whether two strings hold the same characters.
pub fn str_eq(a: &str, b: &str) -> (same: bool)
    ensures
        same == (a@ == b@),
{
    broadcast use vstd::string::group_string_axioms;

    let mut left = a.chars();
    let mut right = b.chars();
    let ghost mut seen: Seq<char> = Seq::empty();
    loop
        invariant
            a@ == seen + left.remaining(),
            b@ == seen + right.remaining(),
        decreases a@.len() - seen.len(),
    {
        let x = left.next();
        let y = right.next();
        match x {
            None => {
                match y {
                    None => {
                        return true;
                    },
                    Some(_) => {
                        return false;
                    },
                }
            },
            Some(c) => {
                match y {
                    None => {
                        return false;
                    },
                    Some(d) => {
                        if c != d {
                            assert(b@[seen.len() as int] == d);
                            return false;
                        }
                        proof {
                            seen = seen.push(c);
                        }
                    },
                }
            },
        }
    }
}

} // verus!
