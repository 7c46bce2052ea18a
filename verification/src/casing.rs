//! Case detection and case propagation: reapplying a source letter's (or a
//! matched ending's) capitalization to a resolved target sequence.

use vstd::prelude::*;
use vstd::string::StringExecFns;
use crate::text::str_to_chars;
use crate::text::chars_to_string;

verus! {

/// Whether a character has the Unicode uppercase property, as
/// `char::is_uppercase` reports it.
pub uninterp spec fn is_upper_char(c: char) -> bool;

/// The lowercase form of a character sequence, as `str::to_lowercase`
/// produces it.
pub uninterp spec fn lower_of(s: Seq<char>) -> Seq<char>;

/// The uppercase form of a character sequence, as `str::to_uppercase`
/// produces it.
pub uninterp spec fn upper_of(s: Seq<char>) -> Seq<char>;

/// The uppercase mapping of one character, as `char::to_uppercase` yields it
/// (one character can map to several).
pub uninterp spec fn upper_char_of(c: char) -> Seq<char>;

/// Relies on `char::is_uppercase`: the result depends on the character alone.
#[verifier::external_body]
pub fn char_is_uppercase(c: char) -> (r: bool)
    ensures
        r == is_upper_char(c),
{
    c.is_uppercase()
}

/// Relies on `str::to_lowercase`: the result depends on the characters alone.
#[verifier::external_body]
pub fn lower_str(s: &str) -> (r: String)
    ensures
        r@ == lower_of(s@),
{
    s.to_lowercase()
}

/// Relies on `str::to_uppercase`: the result depends on the characters alone.
#[verifier::external_body]
pub fn upper_str(s: &str) -> (r: String)
    ensures
        r@ == upper_of(s@),
{
    s.to_uppercase()
}

/// Relies on `char::to_uppercase`: the result depends on the character alone.
#[verifier::external_body]
pub fn upper_char_str(c: char) -> (r: String)
    ensures
        r@ == upper_char_of(c),
{
    c.to_uppercase().collect()
}

/// Whether any character of `s` is uppercase.
pub open spec fn contains_upper(s: Seq<char>) -> bool {
    exists|i: int| 0 <= i < s.len() && is_upper_char(s[i])
}

/// What case propagation returns: the resolved `result` unchanged when the
/// source shows no uppercase, else `result` with its first character
/// uppercased (`only_first_symbol`) or uppercased as a whole.
pub open spec fn spec_propagate(result: Seq<char>, source: Seq<char>, only_first_symbol: bool) -> Seq<
    char,
> {
    if !contains_upper(source) {
        result
    } else if only_first_symbol {
        if result.len() == 0 {
            Seq::empty()
        } else {
            upper_char_of(result[0]) + result.drop_first()
        }
    } else {
        upper_of(result)
    }
}

/// Whether some character of `s` is uppercase, decided character by character.
fn has_uppercase(s: &str) -> (r: bool)
    ensures
        r == contains_upper(s@),
{
    let chars = str_to_chars(s);
    let n = chars.len();
    let mut i: usize = 0;
    while i < n
        invariant
            n == chars@.len(),
            chars@ == s@,
            0 <= i <= n,
            forall|j: int| 0 <= j < i ==> !is_upper_char(s@[j]),
        decreases n - i,
    {
        if char_is_uppercase(chars[i]) {
            assert(contains_upper(s@));
            return true;
        }
        i += 1;
    }
    false
}

/// Reapply the capitalization of `source_letter` to `result`: untouched when
/// the source has no uppercase character; otherwise the first character alone
/// is uppercased when `only_first_symbol` holds, else the whole string.
pub fn propagate_case_from_source(result: &str, source_letter: &str, only_first_symbol: bool) -> (r:
    String)
    ensures
        r@ == spec_propagate(result@, source_letter@, only_first_symbol),
        !contains_upper(source_letter@) ==> r@ == result@,
{
    if !has_uppercase(source_letter) {
        result.to_owned()
    } else if only_first_symbol {
        let chars = str_to_chars(result);
        if chars.len() == 0 {
            String::new()
        } else {
            let mut out = upper_char_str(chars[0]);
            let mut rest: Vec<char> = Vec::new();
            let n = chars.len();
            let mut i: usize = 1;
            while i < n
                invariant
                    1 <= i <= n,
                    n == chars@.len(),
                    rest@ == chars@.subrange(1, i as int),
                decreases n - i,
            {
                rest.push(chars[i]);
                proof {
                    assert(rest@ =~= chars@.subrange(1, i + 1));
                }
                i += 1;
            }
            let rest_str = chars_to_string(&rest);
            out.append(rest_str.as_str());
            proof {
                assert(chars@.subrange(1, n as int) =~= result@.drop_first());
            }
            out
        }
    } else {
        upper_str(result)
    }
}

/// Case is passed through untouched: whenever the source shows no uppercase
/// character, case propagation returns the resolved sequence unchanged.
pub proof fn lemma_case_passthrough(result: Seq<char>, source: Seq<char>, only_first_symbol: bool)
    requires
        !contains_upper(source),
    ensures
        spec_propagate(result, source, only_first_symbol) == result,
{
}

} // verus!
