//! Transliteration of Cyrillic text into a Latin representation, driven by a
//! named schema of lookup tables: per-letter mappings, two-letter contextual
//! mappings (previous and next neighbor), and word-ending mappings, with the
//! source capitalization reapplied to the output.

use vstd::prelude::*;

pub mod casing;
pub mod schema;
pub mod segment;
pub mod text;
pub mod translit;

pub use casing::propagate_case_from_source;
pub use schema::Schema;
pub use translit::Ending;
pub use translit::parse_by_schema;
pub use translit::parse_ending;
pub use translit::parse_letter;
pub use translit::parse_word_by_schema;

verus! {

/// Sentinel padded onto both ends of a word's letter sequence so that the
/// first and last real letters still have two neighbors for contextual
/// lookups. It is stripped from keys before any table is consulted.
pub const DUMMY_SYMBOL: char = '$';

/// The letters of `s` with every occurrence of the sentinel removed.
pub open spec fn strip_dummy(s: Seq<char>) -> Seq<char>
    decreases s.len(),
{
    if s.len() == 0 {
        Seq::empty()
    } else if s[0] == DUMMY_SYMBOL {
        strip_dummy(s.drop_first())
    } else {
        seq![s[0]] + strip_dummy(s.drop_first())
    }
}

} // verus!
