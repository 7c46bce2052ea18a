//! The transliteration algorithm: resolve a word's ending, then each letter
//! through a sentinel-padded three-character window with a fixed priority
//! order over the schema's tables, propagate case, and reassemble text.

use vstd::prelude::*;
use vstd::string::StringExecFns;
use crate::DUMMY_SYMBOL;
use crate::schema::Schema;
use crate::schema::tbl_get;
use crate::casing::spec_propagate;
use crate::casing::propagate_case_from_source;
use crate::casing::is_upper_char;
use crate::casing::lower_of;
use crate::segment::spec_segments;
use crate::segment::split_words;
use crate::text::str_to_chars;
use crate::text::chars_range_string;

verus! {

/// A resolved word ending: the transliterated tail and the index in the
/// word's letter sequence where the matched suffix begins.
pub struct Ending {
    pub translate: String,
    pub ending_start: usize,
}

/// What one window resolves to: the previous-context table is consulted
/// first, then the next-context table, then the plain letter table, and
/// finally the letter itself passes through; the winner is case-propagated
/// against the current letter, first symbol only.
pub open spec fn spec_parse_letter(schema: Schema, w: Seq<char>) -> Seq<char>
    recommends
        w.len() == 3,
{
    let cur = w.subrange(1, 2);
    let resolved = match schema.spec_get_pref(w.subrange(0, 2)) {
        Some(v) => v,
        None => match schema.spec_get_next(w.subrange(1, 3)) {
            Some(v) => v,
            None => match schema.spec_get_letter(cur) {
                Some(v) => v,
                None => cur,
            },
        },
    };
    spec_propagate(resolved, cur, true)
}

/// What ending resolution returns for a word's letter sequence: nothing for
/// fewer than three letters; else the last letter as an ending key (which
/// wins), else the last two letters, else nothing. The matched output is
/// case-propagated against the matched suffix as a whole.
pub open spec fn spec_parse_ending(schema: Schema, s: Seq<char>) -> Option<(Seq<char>, int)> {
    if s.len() < 3 {
        None
    } else {
        let last1 = s.subrange(s.len() - 1, s.len() as int);
        let last2 = s.subrange(s.len() - 2, s.len() as int);
        match schema.spec_get_ending(last1) {
            Some(m) => Some((spec_propagate(m, last1, false), s.len() - 1)),
            None => match schema.spec_get_ending(last2) {
                Some(m) => Some((spec_propagate(m, last2, false), s.len() - 2)),
                None => None,
            },
        }
    }
}

/// The concatenated outputs of every three-character window of `padded` from
/// position `i` on, one output per window.
pub open spec fn spec_windows_out(schema: Schema, padded: Seq<char>, i: int) -> Seq<char>
    recommends
        0 <= i,
    decreases padded.len() - i,
{
    if i + 3 > padded.len() {
        Seq::empty()
    } else {
        spec_parse_letter(schema, padded.subrange(i, i + 3)) + spec_windows_out(schema, padded, i + 1)
    }
}

/// What one word transliterates to: the resolved ending (if any) splits off
/// the tail; the body, padded with one sentinel on each side, goes through
/// the letter windows; the tail is appended verbatim.
pub open spec fn spec_parse_word(schema: Schema, w: Seq<char>) -> Seq<char> {
    let ending = spec_parse_ending(schema, w);
    let body = match ending {
        Some(p) => w.subrange(0, p.1),
        None => w,
    };
    let tail = match ending {
        Some(p) => p.0,
        None => Seq::empty(),
    };
    let padded = seq![DUMMY_SYMBOL] + body + seq![DUMMY_SYMBOL];
    spec_windows_out(schema, padded, 0) + tail
}

/// The concatenated transliterations of a sequence of segments.
pub open spec fn spec_parse_words(schema: Schema, segs: Seq<Seq<char>>) -> Seq<char>
    decreases segs.len(),
{
    if segs.len() == 0 {
        Seq::empty()
    } else {
        spec_parse_word(schema, segs[0]) + spec_parse_words(schema, segs.drop_first())
    }
}

/// What a whole text transliterates to: each maximal word or non-word
/// segment through the word transliterator, concatenated in order.
pub open spec fn spec_parse_text(schema: Schema, s: Seq<char>) -> Seq<char> {
    spec_parse_words(schema, spec_segments(s))
}

/// Resolve one letter from its window `[prev, cur, next]`, where `prev` and
/// `next` may be the sentinel, with priority: previous context, next
/// context, plain letter, passthrough.
pub fn parse_letter(letter_with_neighbors: &[char], schema: &Schema) -> (r: String)
    requires
        letter_with_neighbors@.len() == 3,
    ensures
        r@ == spec_parse_letter(*schema, letter_with_neighbors@),
{
    let letter = chars_range_string(letter_with_neighbors, 1, 2);
    let prev_cur = chars_range_string(letter_with_neighbors, 0, 2);
    let cur_next = chars_range_string(letter_with_neighbors, 1, 3);
    let resolved: &str = match schema.get_pref(prev_cur.as_str()) {
        Some(v) => v,
        None => match schema.get_next(cur_next.as_str()) {
            Some(v) => v,
            None => match schema.get_letter(letter.as_str()) {
                Some(v) => v,
                None => letter.as_str(),
            },
        },
    };
    propagate_case_from_source(resolved, letter.as_str(), true)
}

/// Resolve a word's ending, if any: never for words of fewer than three
/// letters; a one-letter ending match wins over a two-letter one.
pub fn parse_ending(s: &[char], schema: &Schema) -> (r: Option<Ending>)
    ensures
        match spec_parse_ending(*schema, s@) {
            Some(p) => r matches Some(e) && e.translate@ == p.0 && e.ending_start == p.1,
            None => r is None,
        },
        s@.len() < 3 ==> r is None,
{
    let length = s.len();
    if length < 3 {
        return None;
    }
    let last1 = chars_range_string(s, length - 1, length);
    if let Some(matched) = schema.get_ending(last1.as_str()) {
        let translate = propagate_case_from_source(matched, last1.as_str(), false);
        return Some(Ending { translate, ending_start: length - 1 });
    }
    let last2 = chars_range_string(s, length - 2, length);
    match schema.get_ending(last2.as_str()) {
        Some(matched) => {
            let translate = propagate_case_from_source(matched, last2.as_str(), false);
            Some(Ending { translate, ending_start: length - 2 })
        },
        None => None,
    }
}

/// Transliterate one segment: resolve the ending, pad the remaining body
/// with the sentinel on both sides, resolve every three-character window in
/// order, and append the ending's output.
pub fn parse_word_by_schema(s: &str, schema: &Schema) -> (r: String)
    ensures
        r@ == spec_parse_word(*schema, s@),
{
    let word_by_letters = str_to_chars(s);
    let ending = parse_ending(word_by_letters.as_slice(), schema);
    let (parsed_end, body_len): (String, usize) = match ending {
        Some(e) => (e.translate, e.ending_start),
        None => (String::new(), word_by_letters.len()),
    };
    let ghost body = s@.subrange(0, body_len as int);
    proof {
        if spec_parse_ending(*schema, s@) is None {
            assert(body =~= s@);
        }
    }
    let mut padded: Vec<char> = Vec::new();
    padded.push(DUMMY_SYMBOL);
    let mut i: usize = 0;
    while i < body_len
        invariant
            body_len <= word_by_letters@.len(),
            word_by_letters@ == s@,
            0 <= i <= body_len,
            padded@ == seq![DUMMY_SYMBOL] + s@.subrange(0, i as int),
        decreases body_len - i,
    {
        padded.push(word_by_letters[i]);
        proof {
            assert(padded@ =~= seq![DUMMY_SYMBOL] + s@.subrange(0, i + 1));
        }
        i += 1;
    }
    padded.push(DUMMY_SYMBOL);
    proof {
        assert(padded@ =~= seq![DUMMY_SYMBOL] + body + seq![DUMMY_SYMBOL]);
    }
    let plen = padded.len();
    let mut out = String::new();
    let mut j: usize = 0;
    while j < body_len
        invariant
            plen == body_len + 2,
            padded@.len() == body_len + 2,
            padded@ == seq![DUMMY_SYMBOL] + body + seq![DUMMY_SYMBOL],
            0 <= j <= body_len,
            out@ + spec_windows_out(*schema, padded@, j as int) == spec_windows_out(
                *schema,
                padded@,
                0,
            ),
        decreases body_len - j,
    {
        let window = &padded[j..j + 3];
        let piece = parse_letter(window, schema);
        let ghost out_before = out@;
        out.append(piece.as_str());
        proof {
            assert(window@ =~= padded@.subrange(j as int, j + 3));
            assert(spec_windows_out(*schema, padded@, j as int) == spec_parse_letter(
                *schema,
                padded@.subrange(j as int, j + 3),
            ) + spec_windows_out(*schema, padded@, j + 1));
            assert((out_before + piece@) + spec_windows_out(*schema, padded@, j + 1)
                =~= out_before + (piece@ + spec_windows_out(*schema, padded@, j + 1)));
        }
        j += 1;
    }
    proof {
        assert(spec_windows_out(*schema, padded@, body_len as int) =~= Seq::<char>::empty());
        assert(out@ + Seq::<char>::empty() =~= out@);
    }
    out.append(parsed_end.as_str());
    out
}

/// Transliterate a text: split it into maximal word and non-word segments,
/// transliterate each, and concatenate the results in order. Total: every
/// input, including the empty string, yields an output.
pub fn parse_by_schema(s: &str, schema: &Schema) -> (r: String)
    ensures
        r@ == spec_parse_text(*schema, s@),
{
    let segments = split_words(s);
    let ghost views = segments@.map_values(|x: String| x@);
    let n = segments.len();
    let mut out = String::new();
    let mut i: usize = 0;
    proof {
        assert(views.skip(0) =~= views);
        assert(Seq::<char>::empty() + spec_parse_words(*schema, views) =~= spec_parse_words(
            *schema,
            views,
        ));
    }
    while i < n
        invariant
            n == segments@.len(),
            views == segments@.map_values(|x: String| x@),
            views == spec_segments(s@),
            0 <= i <= n,
            out@ + spec_parse_words(*schema, views.skip(i as int)) == spec_parse_words(
                *schema,
                views,
            ),
        decreases n - i,
    {
        let piece = parse_word_by_schema(segments[i].as_str(), schema);
        let ghost out_before = out@;
        out.append(piece.as_str());
        proof {
            assert(views.skip(i as int)[0] == segments@[i as int]@);
            assert(views.skip(i as int).drop_first() =~= views.skip(i + 1));
            assert(spec_parse_words(*schema, views.skip(i as int)) == spec_parse_word(
                *schema,
                segments@[i as int]@,
            ) + spec_parse_words(*schema, views.skip(i + 1)));
            assert((out_before + piece@) + spec_parse_words(*schema, views.skip(i + 1))
                =~= out_before + (piece@ + spec_parse_words(*schema, views.skip(i + 1))));
        }
        i += 1;
    }
    proof {
        assert(views.skip(n as int) =~= Seq::<Seq<char>>::empty());
        assert(out@ + Seq::<char>::empty() =~= out@);
        assert(views.skip(0) =~= views);
    }
    out
}

/// Priority order: whenever both contextual keys of a window are present in
/// the schema, the previous-context result wins.
pub proof fn lemma_priority_prev_wins(schema: Schema, w: Seq<char>)
    requires
        w.len() == 3,
        schema.spec_get_pref(w.subrange(0, 2)) is Some,
        schema.spec_get_next(w.subrange(1, 3)) is Some,
    ensures
        spec_parse_letter(schema, w) == spec_propagate(
            schema.spec_get_pref(w.subrange(0, 2))->0,
            w.subrange(1, 2),
            true,
        ),
{
}

/// A character with no mapping in any table of the schema transliterates to
/// itself, as long as it shows no uppercase (an uppercase unmapped character
/// keeps its first-symbol case propagation).
pub proof fn lemma_unmapped_passthrough(schema: Schema, c: char)
    requires
        c != DUMMY_SYMBOL,
        !is_upper_char(c),
        tbl_get(schema.prev_mapping@, lower_of(seq![c])) is None,
        tbl_get(schema.next_mapping@, lower_of(seq![c])) is None,
        tbl_get(schema.mapping@, lower_of(seq![c])) is None,
    ensures
        spec_parse_word(schema, seq![c]) == seq![c],
        spec_parse_text(schema, seq![c]) == seq![c],
{
    let w = seq![c];
    assert(spec_parse_ending(schema, w) is None);
    let padded = seq![DUMMY_SYMBOL] + w + seq![DUMMY_SYMBOL];
    assert(padded.len() == 3);
    assert(padded[0] == DUMMY_SYMBOL && padded[1] == c && padded[2] == DUMMY_SYMBOL);
    let window = padded.subrange(0, 3);
    assert(window =~= padded);
    let cur = padded.subrange(1, 2);
    assert(cur =~= seq![c]);
    assert(padded.subrange(0, 2) =~= seq![DUMMY_SYMBOL, c]);
    assert(padded.subrange(1, 3) =~= seq![c, DUMMY_SYMBOL]);
    lemma_strip_single(c);
    lemma_strip_pair(c);
    assert(!crate::casing::contains_upper(seq![c]));
    assert(spec_parse_letter(schema, window) == spec_propagate(seq![c], seq![c], true));
    assert(spec_windows_out(schema, padded, 1) =~= Seq::<char>::empty());
    assert(spec_windows_out(schema, padded, 0) =~= seq![c]);
    assert(spec_parse_word(schema, w) =~= seq![c]);
    assert(w.subrange(0, 1) =~= w);
    assert(w.subrange(1, 1) =~= Seq::<char>::empty());
    assert(crate::segment::run_end(w, 1) == 1);
    assert(spec_segments(Seq::<char>::empty()) =~= Seq::<Seq<char>>::empty());
    assert(seq![w] + Seq::<Seq<char>>::empty() =~= seq![w]);
    assert(spec_segments(w) =~= seq![w]);
    assert(seq![w].drop_first() =~= Seq::<Seq<char>>::empty());
    assert(spec_parse_words(schema, Seq::<Seq<char>>::empty()) =~= Seq::<char>::empty());
    assert(seq![w][0] == w);
    assert(spec_parse_words(schema, seq![w]) =~= seq![c] + Seq::<char>::empty());
    assert(seq![c] + Seq::<char>::empty() =~= seq![c]);
}

proof fn lemma_strip_single(c: char)
    requires
        c != DUMMY_SYMBOL,
    ensures
        crate::strip_dummy(seq![c]) == seq![c],
{
    assert(seq![c].drop_first() =~= Seq::<char>::empty());
    assert(crate::strip_dummy(Seq::<char>::empty()) =~= Seq::<char>::empty());
    assert(seq![c] + Seq::<char>::empty() =~= seq![c]);
}

proof fn lemma_strip_pair(c: char)
    requires
        c != DUMMY_SYMBOL,
    ensures
        crate::strip_dummy(seq![DUMMY_SYMBOL, c]) == seq![c],
        crate::strip_dummy(seq![c, DUMMY_SYMBOL]) == seq![c],
{
    lemma_strip_single(c);
    assert(seq![DUMMY_SYMBOL, c].drop_first() =~= seq![c]);
    assert(crate::strip_dummy(seq![DUMMY_SYMBOL, c]) == crate::strip_dummy(seq![c]));
    assert(seq![c, DUMMY_SYMBOL].drop_first() =~= seq![DUMMY_SYMBOL]);
    assert(seq![DUMMY_SYMBOL].drop_first() =~= Seq::<char>::empty());
    assert(crate::strip_dummy(Seq::<char>::empty()) =~= Seq::<char>::empty());
    assert(crate::strip_dummy(seq![DUMMY_SYMBOL]) =~= Seq::<char>::empty());
    assert(seq![c] + Seq::<char>::empty() =~= seq![c]);
}

} // verus!
