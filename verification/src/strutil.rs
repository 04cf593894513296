use vstd::prelude::*;
use vstd::std_specs::iter::IteratorSpec;

verus! {

/// The characters of a string slice, in order, gathered into a vector.
pub fn str_to_chars(s: &str) -> (v: Vec<char>)
    ensures
        v@ == s@,
{
    let mut it = s.chars();
    let mut v: Vec<char> = Vec::new();
    loop
        invariant
            it.decrease() is Some,
            v@ + it.remaining() == s@,
        ensures
            it.remaining().len() == 0,
            v@ + it.remaining() == s@,
        decreases it.decrease()->0,
    {
        let ghost rem0 = it.remaining();
        match it.next() {
            Some(c) => {
                proof {
                    assert(rem0.len() > 0);
                    assert(v@ + rem0 =~= (v@ + seq![c]) + rem0.drop_first());
                }
                v.push(c);
            },
            None => {
                break;
            },
        }
    }
    proof {
        assert(it.remaining() =~= Seq::<char>::empty());
        assert(v@ + it.remaining() =~= v@);
    }
    v
}

/// Relies on String::from_iter over characters: concatenating the characters
/// of the vector, in order, into an owned string.
#[verifier::external_body]
pub fn chars_to_string(v: &Vec<char>) -> (s: String)
    ensures
        s@ == v@,
{
    v.iter().collect()
}

/// True exactly when the character vector spells the given string slice.
pub fn chars_eq_str(u: &Vec<char>, lit: &str) -> (b: bool)
    ensures
        b == (u@ == lit@),
{
    let cs = str_to_chars(lit);
    if u.len() != cs.len() {
        proof {
            assert(u@ != lit@) by {
                assert(u@.len() != lit@.len());
            }
        }
        return false;
    }
    let mut i: usize = 0;
    while i < u.len()
        invariant
            0 <= i <= u@.len(),
            u@.len() == cs@.len(),
            cs@ == lit@,
            forall|k: int| 0 <= k < i ==> u@[k] == cs@[k],
        decreases u@.len() - i,
    {
        if u[i] != cs[i] {
            return false;
        }
        i += 1;
    }
    proof {
        assert(u@ =~= lit@);
    }
    true
}

/// True exactly when the two string slices spell the same characters.
pub fn str_eq(a: &str, b: &str) -> (r: bool)
    ensures
        r == (a@ == b@),
{
    let ca = str_to_chars(a);
    chars_eq_str(&ca, b)
}

} // verus!
