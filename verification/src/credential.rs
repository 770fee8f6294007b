//! The credential gate: decides from the token that the user typed whether
//! the generation action is enabled.

use vstd::prelude::*;

verus! {

/// The characters that a usable credential begins with.
pub open spec fn credential_prefix() -> Seq<char> {
    seq!['s', 'k', '-']
}

/// A credential is usable when it is not empty and begins with
/// [`credential_prefix`]. Nothing else about it is looked at.
pub open spec fn is_usable_spec(token: Seq<char>) -> bool {
    token.len() > 0 && credential_prefix().is_prefix_of(token)
}

/// Tells whether `token` is a usable credential. Looks at no more than its
/// first three characters.
pub fn is_usable(token: &str) -> (usable: bool)
    ensures
        usable == is_usable_spec(token@),
{
    let mut rest = token.chars();
    let first = rest.next();
    let second = rest.next();
    let third = rest.next();
    let usable = match (first, second, third) {
        (Some(a), Some(b), Some(c)) => a == 's' && b == 'k' && c == '-',
        _ => false,
    };
    proof {
        let prefix = credential_prefix();
        if usable {
            assert(token@.subrange(0, 3) =~= prefix);
        } else if prefix.is_prefix_of(token@) {
            assert(token@.subrange(0, 3) == prefix);
            assert(token@.subrange(0, 3)[0] == prefix[0]);
            assert(token@.subrange(0, 3)[1] == prefix[1]);
            assert(token@.subrange(0, 3)[2] == prefix[2]);
        }
    }
    usable
}

} // verus!
