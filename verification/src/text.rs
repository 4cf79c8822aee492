//! Tokenization: normalize case, split on whitespace, stem each word with
//! a language-aware algorithm.
//!
//! Case folding, language detection, whitespace classification and
//! stemming come from outside code; each is wrapped once and its result is
//! given a name, so every contract downstream can speak of tokenization
//! exactly.  The splitting itself is verified against a recursive
//! specification.

use vstd::prelude::*;
use vstd::std_specs::iter::IteratorSpec;

verus! {

/// The case-folded form of a character sequence, as `str::to_lowercase`
/// computes it: a function of the characters alone.
pub uninterp spec fn lower_of(s: Seq<char>) -> Seq<char>;

/// Whether language detection classifies a text as French: a function of
/// the characters alone.
pub uninterp spec fn french_of(s: Seq<char>) -> bool;

/// The stemmed form of a word under the French or the default English
/// algorithm: a function of the flag and the word alone.
pub uninterp spec fn stem_of(french: bool, w: Seq<char>) -> Seq<char>;

/// Whether a character is whitespace in the sense of
/// `char::is_whitespace`.
pub uninterp spec fn is_space(c: char) -> bool;

/// Relies on `str::to_lowercase`: the result depends on the characters
/// alone, and an empty string stays empty.
#[verifier::external_body]
pub(crate) fn lower_str(s: &str) -> (r: String)
    ensures
        r@ == lower_of(s@),
        s@.len() == 0 ==> r@.len() == 0,
{
    s.to_lowercase()
}

/// Relies on `whatlang::detect_lang`: a pure statistical classification
/// of the text.  Only a French verdict changes the stemmer choice; every
/// other outcome (including failed detection) falls back to English.
#[verifier::external_body]
fn detect_is_french(s: &str) -> (r: bool)
    ensures
        r == french_of(s@),
{
    matches!(whatlang::detect_lang(s), Some(whatlang::Lang::Fra))
}

/// Relies on `rust_stemmers::Stemmer::{create, stem}`: the stemmed form
/// depends on the chosen algorithm and the word alone.
#[verifier::external_body]
fn stem_word(french: bool, w: &str) -> (r: String)
    ensures
        r@ == stem_of(french, w@),
{
    let alg = if french {
        rust_stemmers::Algorithm::French
    } else {
        rust_stemmers::Algorithm::English
    };
    rust_stemmers::Stemmer::create(alg).stem(w).into_owned()
}

/// Relies on `char::is_whitespace`: the Unicode whitespace property of a
/// single character.
#[verifier::external_body]
fn is_space_char(c: char) -> (r: bool)
    ensures
        r == is_space(c),
{
    c.is_whitespace()
}

/// Relies on `String::push`: appends one character.
#[verifier::external_body]
fn push_char(s: &mut String, c: char)
    ensures
        final(s)@ == old(s)@.push(c),
{
    s.push(c)
}

/// Collect the characters of a string into a vector, in order.
fn chars_vec(s: &str) -> (r: Vec<char>)
    ensures
        r@ == s@,
{
    broadcast use vstd::string::axiom_spec_iter;
    broadcast use vstd::string::next_postcondition;

    let mut it = s.chars();
    let mut out: Vec<char> = Vec::new();
    proof {
        assert(vstd::string::spec_iter(s).remaining() == s@);
        assert(out@ + IteratorSpec::remaining(&it) =~= s@);
    }
    loop
        invariant
            IteratorSpec::obeys_prophetic_iter_laws(&it),
            IteratorSpec::decrease(&it) is Some,
            out@ + IteratorSpec::remaining(&it) == s@,
        decreases IteratorSpec::decrease(&it)->0,
    {
        let ghost pre = IteratorSpec::remaining(&it);
        match it.next() {
            Some(c) => {
                out.push(c);
                proof {
                    assert(out@ + IteratorSpec::remaining(&it) =~= s@);
                }
            },
            None => {
                proof {
                    assert(pre.len() == 0);
                    assert(out@ =~= s@);
                }
                return out;
            },
        }
    }
}

/// The words of a character sequence: maximal runs of non-whitespace
/// characters, in order.
pub open spec fn spec_split_ws(s: Seq<char>) -> Seq<Seq<char>>
    decreases s.len(),
{
    if s.len() == 0 {
        Seq::empty()
    } else {
        let pre = spec_split_ws(s.drop_last());
        let c = s.last();
        if is_space(c) {
            pre
        } else if s.len() >= 2 && !is_space(s[s.len() - 2]) {
            pre.update(pre.len() - 1, pre.last().push(c))
        } else {
            pre.push(seq![c])
        }
    }
}

/// The view of a word list.
pub open spec fn words_view(ws: Seq<String>) -> Seq<Seq<char>> {
    ws.map_values(|w: String| w@)
}

/// What tokenization returns: the text is case folded, split on
/// whitespace, and each word is stemmed; the algorithm is French when the
/// raw text is detected as French, English otherwise.
pub open spec fn spec_tokenize(s: Seq<char>) -> Seq<Seq<char>> {
    spec_split_ws(lower_of(s)).map_values(|w: Seq<char>| stem_of(french_of(s), w))
}

/// Split a string into its maximal non-whitespace runs.
fn split_words(text: &str) -> (r: Vec<String>)
    ensures
        words_view(r@) == spec_split_ws(text@),
{
    let chars = chars_vec(text);
    let len: usize = chars.len();
    let mut words: Vec<String> = Vec::new();
    let mut cur: String = String::new();
    let mut in_word: bool = false;
    let mut i: usize = 0;
    while i < len
        invariant
            i <= len,
            chars@ == text@,
            len == text@.len(),
            in_word <==> cur@.len() > 0,
            in_word ==> i > 0 && !is_space(text@[i - 1]),
            !in_word ==> i == 0 || is_space(text@[i - 1]),
            !in_word ==> words_view(words@) == spec_split_ws(text@.take(i as int)),
            in_word ==> words_view(words@).push(cur@) == spec_split_ws(text@.take(i as int)),
        decreases len - i,
    {
        let c = chars[i];
        let ghost t = text@.take(i as int);
        proof {
            assert(t.len() == i);
            assert(text@.take(i + 1) == t.push(c)) by {
                assert(text@.take(i + 1) =~= t.push(c));
            }
            assert(t.push(c).drop_last() == t);
            assert(t.push(c).last() == c);
            if t.len() >= 1 {
                assert(t.last() == text@[i - 1]);
                assert(t.push(c)[t.push(c).len() - 2] == t.last());
            }
        }
        if is_space_char(c) {
            if in_word {
                words.push(cur);
                cur = String::new();
                in_word = false;
            }
        } else {
            if in_word {
                proof {
                    let wv = words_view(words@);
                    let pre = wv.push(cur@);
                    assert(pre.update(pre.len() - 1, pre.last().push(c)) =~= wv.push(
                        cur@.push(c),
                    ));
                }
                push_char(&mut cur, c);
            } else {
                proof {
                    assert(cur@ =~= Seq::<char>::empty());
                }
                push_char(&mut cur, c);
                in_word = true;
                proof {
                    assert(cur@ =~= seq![c]);
                }
            }
            proof {
                let ghost old_words = words@;
                assert(words_view(words@).push(cur@) == spec_split_ws(text@.take(i + 1)));
            }
        }
        i = i + 1;
    }
    proof {
        assert(text@.take(len as int) =~= text@);
    }
    if in_word {
        words.push(cur);
    }
    words
}

/// Tokenize a text into stemmed terms.
///
/// The text is case folded, split on whitespace, and every word is
/// stemmed with a language-aware algorithm chosen from the raw text;
/// empty input (or input with no words) yields an empty sequence, never
/// an error.
pub fn tokenize(text: &str) -> (r: Vec<String>)
    ensures
        words_view(r@) == spec_tokenize(text@),
        text@.len() == 0 ==> r@.len() == 0,
{
    let french = detect_is_french(text);
    let low = lower_str(text);
    let words = split_words(low.as_str());
    let mut out: Vec<String> = Vec::new();
    let n = words.len();
    let mut i: usize = 0;
    while i < n
        invariant
            i <= n,
            n == words@.len(),
            words_view(words@) == spec_split_ws(lower_of(text@)),
            french == french_of(text@),
            out@.len() == i,
            forall|j: int| 0 <= j < i ==> out@[j]@ == stem_of(french_of(text@), words@[j]@),
        decreases n - i,
    {
        let stemmed = stem_word(french, words[i].as_str());
        out.push(stemmed);
        i = i + 1;
    }
    proof {
        assert forall|j: int| 0 <= j < n implies words_view(out@)[j] == spec_tokenize(text@)[j] by {
            assert(words_view(out@)[j] == out@[j]@);
            assert(words_view(words@)[j] == words@[j]@);
            assert(spec_tokenize(text@)[j] == stem_of(french_of(text@), spec_split_ws(lower_of(text@))[j]));
        }
        assert(words_view(out@) =~= spec_tokenize(text@));
        if text@.len() == 0 {
            assert(lower_of(text@).len() == 0);
            assert(lower_of(text@) =~= Seq::<char>::empty());
            assert(spec_split_ws(lower_of(text@)).len() == 0);
        }
    }
    out
}

} // verus!
