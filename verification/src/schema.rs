//! The transliteration schema: a named-by-the-caller, immutable bundle of up
//! to four lookup tables (letter, previous-context, next-context, ending),
//! each keyed by a lowercased string, with case-insensitive lookups.

use vstd::prelude::*;
use crate::DUMMY_SYMBOL;
use crate::strip_dummy;
use crate::casing::lower_of;
use crate::casing::lower_str;
use crate::text::str_to_chars;
use crate::text::chars_to_string;

verus! {

/// First match of `k` among the stored pairs, in order; `None` when no key of
/// `t` equals `k`.
pub open spec fn tbl_get(t: Seq<(String, String)>, k: Seq<char>) -> Option<Seq<char>>
    decreases t.len(),
{
    if t.len() == 0 {
        None
    } else if t[0].0@ == k {
        Some(t[0].1@)
    } else {
        tbl_get(t.drop_first(), k)
    }
}

/// A key normalized the way contextual lookups normalize it: the sentinel is
/// stripped, then the rest is lowercased.
pub open spec fn norm_key(s: Seq<char>) -> Seq<char> {
    lower_of(strip_dummy(s))
}

proof fn lemma_tbl_get_skip(t: Seq<(String, String)>, k: Seq<char>, i: int)
    requires
        0 <= i <= t.len(),
        forall|j: int| 0 <= j < i ==> t[j].0@ != k,
    ensures
        tbl_get(t, k) == tbl_get(t.skip(i), k),
    decreases i,
{
    if i == 0 {
        assert(t.skip(0) =~= t);
    } else {
        assert(t[0].0@ != k);
        lemma_tbl_get_skip(t.drop_first(), k, i - 1);
        assert(t.drop_first().skip(i - 1) =~= t.skip(i));
    }
}

/// Linear search over a stored table, first match wins.
fn tbl_lookup<'a>(table: &'a Vec<(String, String)>, key: &String) -> (r: Option<&'a String>)
    ensures
        match tbl_get(table@, key@) {
            Some(v) => r matches Some(t) && t@ == v,
            None => r is None,
        },
{
    let n = table.len();
    let mut i: usize = 0;
    while i < n
        invariant
            n == table@.len(),
            0 <= i <= n,
            forall|j: int| 0 <= j < i ==> table@[j].0@ != key@,
        decreases n - i,
    {
        if table[i].0 == *key {
            proof {
                lemma_tbl_get_skip(table@, key@, i as int);
                assert(table@.skip(i as int)[0] == table@[i as int]);
            }
            return Some(&table[i].1);
        }
        i += 1;
    }
    proof {
        lemma_tbl_get_skip(table@, key@, n as int);
    }
    None
}

proof fn lemma_strip_push(a: Seq<char>, c: char)
    ensures
        strip_dummy(a.push(c)) == strip_dummy(a) + (if c == DUMMY_SYMBOL {
            Seq::<char>::empty()
        } else {
            seq![c]
        }),
    decreases a.len(),
{
    let tail: Seq<char> = if c == DUMMY_SYMBOL {
        Seq::empty()
    } else {
        seq![c]
    };
    if a.len() == 0 {
        assert(a =~= Seq::<char>::empty());
        assert(strip_dummy(Seq::<char>::empty()) == Seq::<char>::empty());
        assert(a.push(c)[0] == c);
        assert(a.push(c).drop_first() =~= Seq::<char>::empty());
        assert(strip_dummy(a.push(c)) =~= tail);
        assert(strip_dummy(a) + tail =~= tail);
    } else {
        assert(a.push(c)[0] == a[0]);
        assert(a.push(c).drop_first() =~= a.drop_first().push(c));
        lemma_strip_push(a.drop_first(), c);
        if a[0] == DUMMY_SYMBOL {
            assert(strip_dummy(a.push(c)) == strip_dummy(a.drop_first().push(c)));
        } else {
            assert(strip_dummy(a.push(c)) == seq![a[0]] + strip_dummy(a.drop_first().push(c)));
            assert(seq![a[0]] + (strip_dummy(a.drop_first()) + tail) =~= (seq![a[0]]
                + strip_dummy(a.drop_first())) + tail);
        }
    }
}

/// The lowercased, sentinel-stripped form of `s`, as contextual lookups use it.
pub fn normalize_key(s: &str) -> (r: String)
    ensures
        r@ == norm_key(s@),
{
    let chars = str_to_chars(s);
    let n = chars.len();
    let mut kept: Vec<char> = Vec::new();
    let mut i: usize = 0;
    while i < n
        invariant
            n == chars@.len(),
            chars@ == s@,
            0 <= i <= n,
            kept@ == strip_dummy(s@.subrange(0, i as int)),
        decreases n - i,
    {
        proof {
            lemma_strip_push(s@.subrange(0, i as int), s@[i as int]);
            assert(s@.subrange(0, i as int).push(s@[i as int]) =~= s@.subrange(0, i + 1));
        }
        if chars[i] != DUMMY_SYMBOL {
            kept.push(chars[i]);
            proof {
                assert(kept@ =~= strip_dummy(s@.subrange(0, i as int)) + seq![s@[i as int]]);
            }
        }
        i += 1;
    }
    proof {
        assert(s@.subrange(0, n as int) =~= s@);
    }
    let stripped = chars_to_string(&kept);
    lower_str(stripped.as_str())
}

/// A transliteration schema: four optional mappings, stored with lowercase
/// keys. An absent table and a table without the key both read as "no match".
pub struct Schema {
    pub mapping: Vec<(String, String)>,
    pub prev_mapping: Vec<(String, String)>,
    pub next_mapping: Vec<(String, String)>,
    pub ending_mapping: Vec<(String, String)>,
}

impl Schema {
    /// Plain single-letter lookup of the normalized form of `s`.
    pub open spec fn spec_get_letter(self, s: Seq<char>) -> Option<Seq<char>> {
        tbl_get(self.mapping@, norm_key(s))
    }

    /// Previous-context lookup: `s` is previous letter + current letter.
    pub open spec fn spec_get_pref(self, s: Seq<char>) -> Option<Seq<char>> {
        tbl_get(self.prev_mapping@, norm_key(s))
    }

    /// Next-context lookup: `s` is current letter + next letter.
    pub open spec fn spec_get_next(self, s: Seq<char>) -> Option<Seq<char>> {
        tbl_get(self.next_mapping@, norm_key(s))
    }

    /// Ending lookup: lowercase only, the sentinel never reaches an ending.
    pub open spec fn spec_get_ending(self, s: Seq<char>) -> Option<Seq<char>> {
        tbl_get(self.ending_mapping@, lower_of(s))
    }

    /// A schema with all four tables empty: every lookup misses.
    pub fn new() -> (r: Schema)
        ensures
            r.mapping@ == Seq::<(String, String)>::empty(),
            r.prev_mapping@ == Seq::<(String, String)>::empty(),
            r.next_mapping@ == Seq::<(String, String)>::empty(),
            r.ending_mapping@ == Seq::<(String, String)>::empty(),
    {
        Schema {
            mapping: Vec::new(),
            prev_mapping: Vec::new(),
            next_mapping: Vec::new(),
            ending_mapping: Vec::new(),
        }
    }

    /// Append a pair to the letter table, the key lowercased on the way in.
    pub fn add_letter(&mut self, key: &str, value: &str)
        ensures
            final(self).mapping@.len() == old(self).mapping@.len() + 1,
            final(self).mapping@.last().0@ == lower_of(key@),
            final(self).mapping@.last().1@ == value@,
            final(self).mapping@.drop_last() == old(self).mapping@,
            final(self).prev_mapping@ == old(self).prev_mapping@,
            final(self).next_mapping@ == old(self).next_mapping@,
            final(self).ending_mapping@ == old(self).ending_mapping@,
    {
        let entry = (lower_str(key), value.to_owned());
        self.mapping.push(entry);
        proof {
            assert(self.mapping@.drop_last() =~= old(self).mapping@);
        }
    }

    /// Append a pair to the previous-context table.
    pub fn add_pref(&mut self, key: &str, value: &str)
        ensures
            final(self).prev_mapping@.len() == old(self).prev_mapping@.len() + 1,
            final(self).prev_mapping@.last().0@ == lower_of(key@),
            final(self).prev_mapping@.last().1@ == value@,
            final(self).prev_mapping@.drop_last() == old(self).prev_mapping@,
            final(self).mapping@ == old(self).mapping@,
            final(self).next_mapping@ == old(self).next_mapping@,
            final(self).ending_mapping@ == old(self).ending_mapping@,
    {
        let entry = (lower_str(key), value.to_owned());
        self.prev_mapping.push(entry);
        proof {
            assert(self.prev_mapping@.drop_last() =~= old(self).prev_mapping@);
        }
    }

    /// Append a pair to the next-context table.
    pub fn add_next(&mut self, key: &str, value: &str)
        ensures
            final(self).next_mapping@.len() == old(self).next_mapping@.len() + 1,
            final(self).next_mapping@.last().0@ == lower_of(key@),
            final(self).next_mapping@.last().1@ == value@,
            final(self).next_mapping@.drop_last() == old(self).next_mapping@,
            final(self).mapping@ == old(self).mapping@,
            final(self).prev_mapping@ == old(self).prev_mapping@,
            final(self).ending_mapping@ == old(self).ending_mapping@,
    {
        let entry = (lower_str(key), value.to_owned());
        self.next_mapping.push(entry);
        proof {
            assert(self.next_mapping@.drop_last() =~= old(self).next_mapping@);
        }
    }

    /// Append a pair to the ending table.
    pub fn add_ending(&mut self, key: &str, value: &str)
        ensures
            final(self).ending_mapping@.len() == old(self).ending_mapping@.len() + 1,
            final(self).ending_mapping@.last().0@ == lower_of(key@),
            final(self).ending_mapping@.last().1@ == value@,
            final(self).ending_mapping@.drop_last() == old(self).ending_mapping@,
            final(self).mapping@ == old(self).mapping@,
            final(self).prev_mapping@ == old(self).prev_mapping@,
            final(self).next_mapping@ == old(self).next_mapping@,
    {
        let entry = (lower_str(key), value.to_owned());
        self.ending_mapping.push(entry);
        proof {
            assert(self.ending_mapping@.drop_last() =~= old(self).ending_mapping@);
        }
    }

    /// Previous-context lookup of `s` normalized (sentinel stripped,
    /// lowercased): what the current letter becomes due to what precedes it.
    pub fn get_pref<'a>(&'a self, s: &str) -> (r: Option<&'a str>)
        ensures
            match self.spec_get_pref(s@) {
                Some(v) => r matches Some(t) && t@ == v,
                None => r is None,
            },
    {
        let key = normalize_key(s);
        match tbl_lookup(&self.prev_mapping, &key) {
            Some(v) => Some(v.as_str()),
            None => None,
        }
    }

    /// Next-context lookup of `s` normalized: what the current letter becomes
    /// due to what follows it.
    pub fn get_next<'a>(&'a self, s: &str) -> (r: Option<&'a str>)
        ensures
            match self.spec_get_next(s@) {
                Some(v) => r matches Some(t) && t@ == v,
                None => r is None,
            },
    {
        let key = normalize_key(s);
        match tbl_lookup(&self.next_mapping, &key) {
            Some(v) => Some(v.as_str()),
            None => None,
        }
    }

    /// Plain letter lookup of `s` normalized.
    pub fn get_letter<'a>(&'a self, s: &str) -> (r: Option<&'a str>)
        ensures
            match self.spec_get_letter(s@) {
                Some(v) => r matches Some(t) && t@ == v,
                None => r is None,
            },
    {
        let key = normalize_key(s);
        match tbl_lookup(&self.mapping, &key) {
            Some(v) => Some(v.as_str()),
            None => None,
        }
    }

    /// Ending lookup of `s` lowercased (endings never touch the sentinel).
    pub fn get_ending<'a>(&'a self, s: &str) -> (r: Option<&'a str>)
        ensures
            match self.spec_get_ending(s@) {
                Some(v) => r matches Some(t) && t@ == v,
                None => r is None,
            },
    {
        let key = lower_str(s);
        match tbl_lookup(&self.ending_mapping, &key) {
            Some(v) => Some(v.as_str()),
            None => None,
        }
    }
}

} // verus!
