use vstd::prelude::*;
use crate::strutil::{dec_digits, usize_to_string};

verus! {

/// The canonical path of an object member: the parent path, a slash, the key,
/// with the key inserted verbatim (no escaping of special characters).
pub open spec fn key_path(path: Seq<char>, key: Seq<char>) -> Seq<char> {
    path + seq!['/'] + key
}

/// The canonical path of an array element: the parent path, a slash, and the
/// index in decimal between square brackets.
pub open spec fn index_path(path: Seq<char>, i: nat) -> Seq<char> {
    path + seq!['/', '['] + dec_digits(i) + seq![']']
}

pub fn path_extend_key(path: &String, key: &String) -> (r: String)
    ensures
        r@ == key_path(path@, key@),
{
    let mut r = path.clone();
    r.append("/");
    r.append(key.as_str());
    proof {
        reveal_strlit("/");
        assert("/"@ =~= seq!['/']);
        assert(r@ =~= key_path(path@, key@));
    }
    r
}

pub fn path_extend_index(path: &String, i: usize) -> (r: String)
    ensures
        r@ == index_path(path@, i as nat),
{
    let mut r = path.clone();
    r.append("/[");
    let digits = usize_to_string(i);
    r.append(digits.as_str());
    r.append("]");
    proof {
        reveal_strlit("/[");
        reveal_strlit("]");
        assert("/["@ =~= seq!['/', '[']);
        assert("]"@ =~= seq![']']);
        assert(r@ =~= index_path(path@, i as nat));
    }
    r
}

} // verus!
