//! Password helpers.

use vstd::prelude::*;

use crate::text::string_from_chars;

verus! {

/// The length of the mask shown for any non-empty password.
pub const MASK_LEN: usize = 12;

/// The mask shown instead of a password: `<空>` for an empty one, otherwise
/// the same twelve `*` whatever the password is, so that not even its
/// length shows.
pub open spec fn mask_spec(pw: Seq<char>) -> Seq<char> {
    if pw.len() == 0 {
        "<空>"@
    } else {
        Seq::new(MASK_LEN as nat, |i: int| '*')
    }
}

/// Masks a password with a fixed-length mask so that logs never show it.
pub fn mask_password(pw: &str) -> (r: String)
    ensures
        r@ == mask_spec(pw@),
{
    if pw.unicode_len() == 0 {
        return "<空>".to_owned();
    }
    let mut out: Vec<char> = Vec::new();
    let mut i: usize = 0;
    while i < MASK_LEN
        invariant
            i <= MASK_LEN,
            out@ == Seq::new(i as nat, |k: int| '*'),
        decreases MASK_LEN - i,
    {
        out.push('*');
        i = i + 1;
        assert(out@ =~= Seq::new(i as nat, |k: int| '*'));
    }
    string_from_chars(out.as_slice())
}

/// Law: any two non-empty passwords get the same mask, which holds only
/// `*`: the mask tells nothing of the password, not even its length.
pub proof fn law_mask_hides_password(a: Seq<char>, b: Seq<char>)
    requires
        a.len() > 0,
        b.len() > 0,
    ensures
        mask_spec(a) == mask_spec(b),
        forall|i: int| 0 <= i < mask_spec(a).len() ==> mask_spec(a)[i] == '*',
{
}

} // verus!
