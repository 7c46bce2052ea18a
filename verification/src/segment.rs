//! Word segmentation: split input text at word boundaries (transitions
//! between the word-character class and everything else) into maximal runs,
//! losslessly, so that the segments concatenate back to the input.

use vstd::prelude::*;
use crate::text::str_to_chars;
use crate::text::chars_range_string;

verus! {

/// Whether a character is alphanumeric, as `char::is_alphanumeric` reports it.
pub uninterp spec fn is_alphanum(c: char) -> bool;

/// Relies on `char::is_alphanumeric`: the result depends on the character
/// alone.
#[verifier::external_body]
fn alphanumeric(c: char) -> (r: bool)
    ensures
        r == is_alphanum(c),
{
    c.is_alphanumeric()
}

/// The word-character class: letters and digits, plus the underscore.
pub open spec fn is_word_char(c: char) -> bool {
    is_alphanum(c) || c == '_'
}

/// Decide the word-character class of one character.
pub fn word_char(c: char) -> (r: bool)
    ensures
        r == is_word_char(c),
{
    if alphanumeric(c) {
        true
    } else {
        c == '_'
    }
}

/// The index right after the run of characters that share the class of
/// `s[0]`, scanning from `i`.
pub open spec fn run_end(s: Seq<char>, i: int) -> int
    recommends
        1 <= i <= s.len(),
    decreases s.len() - i,
{
    if i >= s.len() {
        i
    } else if is_word_char(s[i]) != is_word_char(s[0]) {
        i
    } else {
        run_end(s, i + 1)
    }
}

proof fn lemma_run_end_bounds(s: Seq<char>, i: int)
    requires
        1 <= i <= s.len(),
    ensures
        i <= run_end(s, i) <= s.len(),
    decreases s.len() - i,
{
    if i < s.len() && is_word_char(s[i]) == is_word_char(s[0]) {
        lemma_run_end_bounds(s, i + 1);
    }
}

proof fn lemma_run_end_from(s: Seq<char>, i: int, k: int)
    requires
        1 <= i <= k <= s.len(),
        forall|j: int| i <= j < k ==> is_word_char(#[trigger] s[j]) == is_word_char(s[0]),
        k == s.len() || is_word_char(s[k]) != is_word_char(s[0]),
    ensures
        run_end(s, i) == k,
    decreases k - i,
{
    if i < k {
        assert(is_word_char(s[i]) == is_word_char(s[0]));
        lemma_run_end_from(s, i + 1, k);
    }
}

/// The input split into maximal runs of one word-character class each.
pub open spec fn spec_segments(s: Seq<char>) -> Seq<Seq<char>>
    decreases s.len(),
    via spec_segments_decreases
{
    if s.len() == 0 {
        Seq::empty()
    } else {
        let n = run_end(s, 1);
        seq![s.subrange(0, n)] + spec_segments(s.subrange(n, s.len() as int))
    }
}

#[via_fn]
proof fn spec_segments_decreases(s: Seq<char>) {
    if s.len() != 0 {
        lemma_run_end_bounds(s, 1);
    }
}

/// The concatenation of a sequence of segments, in order.
pub open spec fn concat_segs(ss: Seq<Seq<char>>) -> Seq<char>
    decreases ss.len(),
{
    if ss.len() == 0 {
        Seq::empty()
    } else {
        ss[0] + concat_segs(ss.drop_first())
    }
}

/// Segmentation is lossless: concatenating the segments, in order,
/// reproduces the original input exactly.
pub proof fn lemma_segmentation_lossless(s: Seq<char>)
    ensures
        concat_segs(spec_segments(s)) == s,
    decreases s.len(),
{
    if s.len() == 0 {
        assert(concat_segs(spec_segments(s)) =~= s);
    } else {
        lemma_run_end_bounds(s, 1);
        let n = run_end(s, 1);
        let rest = s.subrange(n, s.len() as int);
        lemma_segmentation_lossless(rest);
        let segs = spec_segments(s);
        assert(segs[0] == s.subrange(0, n));
        assert(segs.drop_first() =~= spec_segments(rest));
        assert(s.subrange(0, n) + rest =~= s);
    }
}

/// Split `s` into maximal word and non-word segments, in order.
pub fn split_words(s: &str) -> (r: Vec<String>)
    ensures
        r@.map_values(|x: String| x@) == spec_segments(s@),
{
    let chars = str_to_chars(s);
    let n = chars.len();
    let mut segs: Vec<String> = Vec::new();
    let mut start: usize = 0;
    proof {
        assert(s@.subrange(0, n as int) =~= s@);
        assert(Seq::<String>::empty().map_values(|x: String| x@) + spec_segments(s@)
            =~= spec_segments(s@));
        assert(segs@ =~= Seq::<String>::empty());
    }
    while start < n
        invariant
            n == chars@.len(),
            chars@ == s@,
            0 <= start <= n,
            spec_segments(s@) == segs@.map_values(|x: String| x@) + spec_segments(
                s@.subrange(start as int, n as int),
            ),
        decreases n - start,
    {
        let start_class = word_char(chars[start]);
        let mut end: usize = start + 1;
        while end < n && word_char(chars[end]) == start_class
            invariant
                n == chars@.len(),
                chars@ == s@,
                start < end <= n,
                start_class == is_word_char(s@[start as int]),
                forall|j: int|
                    start < j < end ==> is_word_char(#[trigger] s@[j]) == is_word_char(
                        s@[start as int],
                    ),
            decreases n - end,
        {
            end += 1;
        }
        let ghost suffix = s@.subrange(start as int, n as int);
        proof {
            assert(suffix[0] == s@[start as int]);
            assert forall|j: int| 1 <= j < end - start implies is_word_char(
                #[trigger] suffix[j],
            ) == is_word_char(suffix[0]) by {
                assert(suffix[j] == s@[start + j]);
            }
            if end < n {
                assert(is_word_char(suffix[end - start]) == is_word_char(s@[end as int]));
            }
            lemma_run_end_from(suffix, 1, end - start);
        }
        let piece = chars_range_string(chars.as_slice(), start, end);
        segs.push(piece);
        proof {
            let f = |x: String| x@;
            assert(segs@.map_values(f) =~= segs@.drop_last().map_values(f).push(
                s@.subrange(start as int, end as int),
            ));
            assert(suffix.subrange(0, end - start) =~= s@.subrange(start as int, end as int));
            assert(suffix.subrange(end - start, suffix.len() as int) =~= s@.subrange(
                end as int,
                n as int,
            ));
            assert(spec_segments(suffix) == seq![s@.subrange(start as int, end as int)]
                + spec_segments(s@.subrange(end as int, n as int)));
            assert(segs@.drop_last().map_values(f) + (seq![s@.subrange(start as int, end as int)]
                + spec_segments(s@.subrange(end as int, n as int))) =~= segs@.map_values(f)
                + spec_segments(s@.subrange(end as int, n as int)));
        }
        start = end;
    }
    proof {
        assert(s@.subrange(n as int, n as int) =~= Seq::<char>::empty());
        assert(spec_segments(Seq::<char>::empty()) =~= Seq::<Seq<char>>::empty());
        assert(segs@.map_values(|x: String| x@) + Seq::<Seq<char>>::empty() =~= segs@.map_values(
            |x: String| x@,
        ));
    }
    segs
}

} // verus!
