//! Function names: symbols that compare without regard to ASCII case.

use vstd::prelude::*;

verus! {

/// The ASCII lower-case form of a character; other characters stay.
pub open spec fn lower(c: char) -> char {
    if 'A' <= c && c <= 'Z' {
        ((c as u8) + 32) as char
    } else {
        c
    }
}

/// A name with every character in ASCII lower case.
pub open spec fn folded(name: Seq<char>) -> Seq<char> {
    name.map_values(|c: char| lower(c))
}

/// Whether two names are the same symbol: equal once folded.
pub open spec fn same_symbol(a: Seq<char>, b: Seq<char>) -> bool {
    folded(a) == folded(b)
}

fn to_lower(c: char) -> (low: char)
    ensures
        low == lower(c),
{
    if c >= 'A' && c <= 'Z' {
        ((c as u8) + 32) as char
    } else {
        c
    }
}

fn fold(name: &str) -> (out: Vec<char>)
    ensures
        out@ == folded(name@),
{
    let mut out: Vec<char> = Vec::new();
    for c in it: name.chars()
        invariant
            it.seq() == name@,
            out@ == folded(name@.take(it.index())),
    {
        out.push(to_lower(c));
        assert(out@ =~= folded(name@.take(it.index() + 1)));
    }
    assert(name@.take(name@.len() as int) =~= name@);
    out
}

/// Compares two names as symbols.
pub fn symbol_eq(a: &str, b: &str) -> (same: bool)
    ensures
        same == same_symbol(a@, b@),
{
    let left = fold(a);
    let right = fold(b);
    if left.len() != right.len() {
        assert(folded(a@).len() != folded(b@).len());
        return false;
    }
    let mut i: usize = 0;
    while i < left.len()
        invariant
            i <= left.len(),
            left.len() == right.len(),
            left@ == folded(a@),
            right@ == folded(b@),
            forall|j: int| 0 <= j < i ==> left@[j] == right@[j],
        decreases left.len() - i,
    {
        if left[i] != right[i] {
            assert(folded(a@)[i as int] != folded(b@)[i as int]);
            return false;
        }
        i += 1;
    }
    assert(left@ =~= right@);
    true
}

} // verus!
