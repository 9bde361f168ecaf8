//! Counting word occurrences in a phrase: the phrase is lowercased,
//! split on Unicode whitespace, and each distinct word is paired with
//! the number of times it occurs.

use vstd::prelude::*;
use vstd::string::StrSliceExecFns;
use vstd::string::StringExecFns;

verus! {

/// The lowercase form of a string of characters, as `str::to_lowercase`
/// computes it.
pub uninterp spec fn lower_of(s: Seq<char>) -> Seq<char>;

/// Relies on str::to_lowercase: the lowercase form of the string,
/// depending on its characters alone.
#[verifier::external_body]
fn to_lowercase(s: &str) -> (result: String)
    ensures
        result@ == lower_of(s@),
{
    s.to_lowercase()
}

/// Whether a character counts as whitespace under Unicode, as
/// `char::is_whitespace` decides it.
pub uninterp spec fn is_unicode_whitespace(c: char) -> bool;

/// Relies on char::is_whitespace: whether the character has the Unicode
/// whitespace property, a fact of the character alone.
#[verifier::external_body]
fn is_whitespace_char(c: char) -> (result: bool)
    ensures
        result == is_unicode_whitespace(c),
{
    c.is_whitespace()
}

/// Index of the first whitespace character of `s`, or its length when
/// `s` has none.
pub open spec fn first_sep(s: Seq<char>) -> int
    decreases s.len(),
{
    if s.len() == 0 {
        0
    } else if is_unicode_whitespace(s[0]) {
        0
    } else {
        1 + first_sep(s.drop_first())
    }
}

proof fn lemma_first_sep_bounds(s: Seq<char>)
    ensures
        0 <= first_sep(s) <= s.len(),
        s.len() > 0 && !is_unicode_whitespace(s[0]) ==> first_sep(s) >= 1,
    decreases s.len(),
{
    if s.len() > 0 && !is_unicode_whitespace(s[0]) {
        lemma_first_sep_bounds(s.drop_first());
    }
}

proof fn lemma_first_sep_at(s: Seq<char>, i: int)
    requires
        0 <= i <= s.len(),
        forall|j: int| 0 <= j < i ==> !is_unicode_whitespace(s[j]),
        i < s.len() ==> is_unicode_whitespace(s[i]),
    ensures
        first_sep(s) == i,
    decreases s.len(),
{
    if s.len() > 0 && i > 0 {
        assert forall|j: int| 0 <= j < i - 1 implies !is_unicode_whitespace(
            s.drop_first()[j],
        ) by {
            assert(!is_unicode_whitespace(s[j + 1]));
        }
        lemma_first_sep_at(s.drop_first(), i - 1);
    }
}

/// The words of `s`: the maximal runs of non-whitespace characters, in
/// their given order.
pub open spec fn words(s: Seq<char>) -> Seq<Seq<char>>
    decreases s.len(),
    via words_decreases
{
    if s.len() == 0 {
        Seq::empty()
    } else if is_unicode_whitespace(s[0]) {
        words(s.drop_first())
    } else {
        seq![s.take(first_sep(s))] + words(s.skip(first_sep(s)))
    }
}

#[via_fn]
proof fn words_decreases(s: Seq<char>) {
    if s.len() > 0 && !is_unicode_whitespace(s[0]) {
        lemma_first_sep_bounds(s);
    }
}

/// How often the word `w` occurs in the list `ws`.
pub open spec fn count_matches(ws: Seq<Seq<char>>, w: Seq<char>) -> nat
    decreases ws.len(),
{
    if ws.len() == 0 {
        0
    } else {
        count_matches(ws.drop_last(), w) + if ws.last() == w {
            1nat
        } else {
            0nat
        }
    }
}

proof fn lemma_count_le_len(ws: Seq<Seq<char>>, w: Seq<char>)
    ensures
        count_matches(ws, w) <= ws.len(),
    decreases ws.len(),
{
    if ws.len() > 0 {
        lemma_count_le_len(ws.drop_last(), w);
    }
}

proof fn lemma_count_zero(ws: Seq<Seq<char>>, w: Seq<char>)
    requires
        forall|m: int| 0 <= m < ws.len() ==> (#[trigger] ws[m]) != w,
    ensures
        count_matches(ws, w) == 0,
    decreases ws.len(),
{
    if ws.len() > 0 {
        lemma_count_zero(ws.drop_last(), w);
    }
}

/// What a finished count of the word list `ws` looks like: the keys are
/// distinct, each key carries the number of its occurrences, and every
/// word of the list appears as a key.
pub open spec fn counts_ok(entries: Seq<(String, usize)>, ws: Seq<Seq<char>>) -> bool {
    &&& forall|p: int, q: int|
        0 <= p < q < entries.len() ==> (#[trigger] entries[p]).0@ != (#[trigger] entries[q]).0@
    &&& forall|p: int|
        0 <= p < entries.len() ==> (#[trigger] entries[p]).1 == count_matches(ws, entries[p].0@)
            && entries[p].1 >= 1
    &&& forall|m: int|
        0 <= m < ws.len() ==> exists|p: int|
            0 <= p < entries.len() && (#[trigger] entries[p]).0@ == #[trigger] ws[m]
}

/// Splits `s` into its words, each copied into an owned string.
pub fn split_words(s: &str) -> (result: Vec<String>)
    ensures
        result.deep_view() == words(s@),
{
    let n = s.unicode_len();
    let mut result: Vec<String> = Vec::new();
    let mut i: usize = 0;
    proof {
        assert(s@.skip(0) =~= s@);
        assert(words(s@) =~~= result.deep_view() + words(s@));
    }
    while i < n
        invariant
            n == s@.len(),
            i <= n,
            words(s@) == result.deep_view() + words(s@.skip(i as int)),
        decreases n - i,
    {
        let c = s.get_char(i);
        if is_whitespace_char(c) {
            proof {
                assert(s@.skip(i as int).drop_first() =~= s@.skip(i + 1));
            }
            i = i + 1;
        } else {
            let ghost pre = result.deep_view();
            let start = i;
            let mut j = i + 1;
            while j < n && !is_whitespace_char(s.get_char(j))
                invariant
                    n == s@.len(),
                    start < j <= n,
                    start < n,
                    forall|k: int| start <= k < j ==> !is_unicode_whitespace(s@[k]),
                decreases n - j,
            {
                j = j + 1;
            }
            let w = s.substring_char(start, j);
            result.push(String::from_str(w));
            proof {
                let t = s@.skip(start as int);
                assert forall|k: int| 0 <= k < j - start implies !is_unicode_whitespace(
                    t[k],
                ) by {
                    assert(!is_unicode_whitespace(s@[start + k]));
                }
                if j < n {
                    assert(is_unicode_whitespace(t[j - start]));
                }
                lemma_first_sep_at(t, j - start);
                assert(t.take(j - start) =~= s@.subrange(start as int, j as int));
                assert(t.skip(j - start) =~= s@.skip(j as int));
                assert(words(t) == seq![w@] + words(s@.skip(j as int)));
                assert(result.deep_view() =~~= pre.push(w@));
                assert(pre + (seq![w@] + words(s@.skip(j as int))) =~~= pre.push(w@) + words(
                    s@.skip(j as int),
                ));
            }
            i = j;
        }
    }
    proof {
        assert(s@.skip(n as int) =~= Seq::<char>::empty());
        assert(words(s@) =~~= result.deep_view());
    }
    result
}

/// Index of the entry whose key is `w`, if one is there.
fn find_key(entries: &Vec<(String, usize)>, w: &String) -> (result: Option<usize>)
    ensures
        match result {
            Option::Some(k) => k < entries@.len() && entries@[k as int].0@ == w@,
            Option::None => forall|k: int| 0 <= k < entries@.len() ==> (#[trigger] entries@[k]).0@
                != w@,
        },
{
    let mut k: usize = 0;
    while k < entries.len()
        invariant
            k <= entries@.len(),
            forall|p: int| 0 <= p < k ==> (#[trigger] entries@[p]).0@ != w@,
        decreases entries@.len() - k,
    {
        if entries[k].0 == *w {
            return Some(k);
        }
        k = k + 1;
    }
    None
}

/// Counts how often each distinct word occurs in `ws`, keys in order of
/// first appearance.
pub fn tally(ws_vec: &Vec<String>) -> (result: Vec<(String, usize)>)
    ensures
        counts_ok(result@, ws_vec.deep_view()),
{
    let ghost ws = ws_vec.deep_view();
    let mut result: Vec<(String, usize)> = Vec::new();
    let mut i: usize = 0;
    proof {
        assert(ws.take(0) =~~= Seq::<Seq<char>>::empty());
    }
    while i < ws_vec.len()
        invariant
            i <= ws_vec@.len(),
            ws == ws_vec.deep_view(),
            counts_ok(result@, ws.take(i as int)),
        decreases ws_vec@.len() - i,
    {
        let w = &ws_vec[i];
        let ghost pre_entries = result@;
        proof {
            assert(ws.take(i + 1).drop_last() =~~= ws.take(i as int));
            assert(ws.take(i + 1).last() == w@);
            lemma_count_le_len(ws.take(i as int), w@);
        }
        match find_key(&result, w) {
            Some(k) => {
                let entry = result.remove(k);
                let count = entry.1;
                result.insert(k, (entry.0, count + 1));
                proof {
                    assert(result@ =~= pre_entries.update(
                        k as int,
                        (entry.0, (count + 1) as usize),
                    ));
                    assert forall|p: int| 0 <= p < result@.len() implies (#[trigger] result@[p]).0
                        == pre_entries[p].0 by {}
                    assert forall|p: int| 0 <= p < result@.len() implies (#[trigger] result@[p]).1
                        == count_matches(ws.take(i + 1), result@[p].0@) && result@[p].1 >= 1 by {
                        if p != k {
                            assert(pre_entries[p].0@ != pre_entries[k as int].0@);
                            assert(result@[p].0@ != w@);
                        }
                    }
                    assert(exists|p: int|
                        0 <= p < result@.len() && (#[trigger] result@[p]).0@ == w@) by {
                        assert(result@[k as int].0@ == w@);
                    }
                }
            },
            None => {
                result.push((w.clone(), 1));
                proof {
                    assert forall|m: int|
                        0 <= m < i implies (#[trigger] ws.take(i as int)[m]) != w@ by {
                        let p0 = choose|p0: int|
                            0 <= p0 < pre_entries.len() && (#[trigger] pre_entries[p0]).0@
                                == ws.take(i as int)[m];
                        assert(pre_entries[p0].0@ != w@);
                    }
                    lemma_count_zero(ws.take(i as int), w@);
                    assert forall|p: int| 0 <= p < result@.len() implies (#[trigger] result@[p]).1
                        == count_matches(ws.take(i + 1), result@[p].0@) && result@[p].1 >= 1 by {
                        if p < result@.len() - 1 {
                            assert(result@[p] == pre_entries[p]);
                            assert(result@[p].0@ != w@);
                        }
                    }
                    assert(exists|p: int|
                        0 <= p < result@.len() && (#[trigger] result@[p]).0@ == w@) by {
                        assert(result@[result@.len() - 1].0@ == w@);
                    }
                }
            },
        }
        proof {
            assert forall|m: int| 0 <= m < i + 1 implies exists|p: int|
                0 <= p < result@.len() && (#[trigger] result@[p]).0@ == #[trigger] ws.take(
                i + 1,
            )[m] by {
                if m < i {
                    assert(ws.take(i + 1)[m] == ws.take(i as int)[m]);
                    let p0 = choose|p0: int|
                        0 <= p0 < pre_entries.len() && (#[trigger] pre_entries[p0]).0@ == ws.take(
                        i as int,
                    )[m];
                    assert(result@[p0].0@ == ws.take(i + 1)[m]);
                } else {
                    assert(ws.take(i + 1)[m] == w@);
                }
            }
        }
        i = i + 1;
    }
    proof {
        assert(ws.take(ws.len() as int) =~~= ws);
    }
    result
}

/// Count occurrences of words: the phrase is lowercased and split on
/// Unicode whitespace, and each distinct word of the outcome is paired
/// with how often it occurs.
pub fn word_count(phrase: &str) -> (result: Vec<(String, usize)>)
    ensures
        counts_ok(result@, words(lower_of(phrase@))),
{
    let lowered = to_lowercase(phrase);
    let ws_vec = split_words(lowered.as_str());
    tally(&ws_vec)
}

} // verus!
