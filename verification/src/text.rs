//! Plumbing between `&str`/`String` and `Vec<char>`, so that the rest of the
//! library can work on character vectors whose views are plain `Seq<char>`.

use vstd::prelude::*;

verus! {

/// Relies on `str::chars`: iterating a string yields exactly its characters,
/// in order, which is the string's view.
#[verifier::external_body]
pub fn str_to_chars(s: &str) -> (r: Vec<char>)
    ensures
        r@ == s@,
{
    s.chars().collect()
}

/// Relies on `FromIterator<char> for String`: collecting characters builds the
/// string whose view is exactly that character sequence.
#[verifier::external_body]
pub fn chars_to_string(v: &Vec<char>) -> (r: String)
    ensures
        r@ == v@,
{
    v.iter().collect()
}

/// The string made of the characters `v[from..to]`.
pub fn chars_range_string(v: &[char], from: usize, to: usize) -> (r: String)
    requires
        from <= to <= v@.len(),
    ensures
        r@ == v@.subrange(from as int, to as int),
{
    let mut piece: Vec<char> = Vec::new();
    let mut i: usize = from;
    while i < to
        invariant
            from <= i <= to <= v@.len(),
            piece@ == v@.subrange(from as int, i as int),
        decreases to - i,
    {
        piece.push(v[i]);
        proof {
            assert(piece@ =~= v@.subrange(from as int, i + 1));
        }
        i += 1;
    }
    chars_to_string(&piece)
}

} // verus!
