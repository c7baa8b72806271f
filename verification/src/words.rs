//! Whitespace-delimited words of a string, and joining words back together.
//!
//! A *word* is a maximal run of characters none of which is whitespace.
//! Whitespace is what Unicode calls `White_Space`.

use vstd::prelude::*;
use vstd::string::StringExecFns;

verus! {

/// `String::push` of the standard library: the string afterwards is the
/// string before with `ch` appended as its last character.
pub assume_specification[ String::push ](s: &mut String, ch: char)
    ensures
        final(s)@ == old(s)@.push(ch),
;

/// Whether `c` has the Unicode `White_Space` property.
pub open spec fn is_space(c: char) -> bool {
    ||| '\u{9}' <= c <= '\u{d}'
    ||| c == ' '
    ||| c == '\u{85}'
    ||| c == '\u{a0}'
    ||| c == '\u{1680}'
    ||| '\u{2000}' <= c <= '\u{200a}'
    ||| c == '\u{2028}'
    ||| c == '\u{2029}'
    ||| c == '\u{202f}'
    ||| c == '\u{205f}'
    ||| c == '\u{3000}'
}

/// Whether `s` is a non-empty run of characters without whitespace.
pub open spec fn is_word(s: Seq<char>) -> bool {
    &&& s.len() > 0
    &&& forall|k: int| 0 <= k < s.len() ==> !is_space(#[trigger] s[k])
}

/// Length of the longest prefix of `s` that holds no whitespace.
pub open spec fn word_len(s: Seq<char>) -> nat
    decreases s.len(),
{
    if s.len() == 0 || is_space(s[0]) {
        0
    } else {
        1 + word_len(s.skip(1))
    }
}

/// The words of `s`, in the order in which they occur.
pub open spec fn words(s: Seq<char>) -> Seq<Seq<char>>
    decreases s.len(),
{
    if s.len() == 0 {
        Seq::empty()
    } else if is_space(s[0]) {
        words(s.skip(1))
    } else {
        proof {
            lemma_word_len_bound(s);
        }
        seq![s.take(word_len(s) as int)] + words(s.skip(word_len(s) as int))
    }
}

/// The pieces written one after another with a single space between
/// neighbours.
pub open spec fn join(pieces: Seq<Seq<char>>) -> Seq<char>
    decreases pieces.len(),
{
    if pieces.len() == 0 {
        Seq::empty()
    } else if pieces.len() == 1 {
        pieces[0]
    } else {
        join(pieces.drop_last()) + seq![' '] + pieces.last()
    }
}

/// The leading word of a sequence is never longer than the sequence.
pub proof fn lemma_word_len_bound(s: Seq<char>)
    ensures
        word_len(s) <= s.len(),
        s.len() > 0 && !is_space(s[0]) ==> word_len(s) >= 1,
        forall|k: int| 0 <= k < word_len(s) ==> !is_space(#[trigger] s[k]),
        word_len(s) < s.len() ==> is_space(s[word_len(s) as int]),
    decreases s.len(),
{
    if s.len() > 0 && !is_space(s[0]) {
        let tail = s.skip(1);
        lemma_word_len_bound(tail);
        assert forall|k: int| 0 <= k < word_len(s) implies !is_space(#[trigger] s[k]) by {
            if k > 0 {
                assert(s[k] == tail[k - 1]);
            }
        }
        if word_len(s) < s.len() {
            assert(s[word_len(s) as int] == tail[word_len(tail) as int]);
        }
    }
}

/// A run without whitespace that is followed by whitespace, or by nothing,
/// is the leading word of the whole.
proof fn lemma_word_len_run(run: Seq<char>, rest: Seq<char>)
    requires
        forall|k: int| 0 <= k < run.len() ==> !is_space(#[trigger] run[k]),
        rest.len() == 0 || is_space(rest[0]),
    ensures
        word_len(run + rest) == run.len(),
    decreases run.len(),
{
    let all = run + rest;
    if run.len() == 0 {
        assert(all =~= rest);
    } else {
        assert(all[0] == run[0]);
        assert(all.skip(1) =~= run.skip(1) + rest);
        assert forall|k: int| 0 <= k < run.skip(1).len() implies !is_space(
            #[trigger] run.skip(1)[k],
        ) by {
            assert(run.skip(1)[k] == run[k + 1]);
        }
        lemma_word_len_run(run.skip(1), rest);
    }
}

/// The words of a run without whitespace followed by `rest`, where `rest`
/// is empty or starts with whitespace: the run, if it is not empty, and
/// then the words of `rest`.
pub proof fn lemma_words_run(run: Seq<char>, rest: Seq<char>)
    requires
        forall|k: int| 0 <= k < run.len() ==> !is_space(#[trigger] run[k]),
        rest.len() == 0 || is_space(rest[0]),
    ensures
        words(run + rest) == if run.len() > 0 {
            seq![run] + words(rest)
        } else {
            words(rest)
        },
{
    let all = run + rest;
    if run.len() == 0 {
        assert(all =~= rest);
    } else {
        lemma_word_len_run(run, rest);
        assert(all[0] == run[0]);
        assert(all.take(run.len() as int) =~= run);
        assert(all.skip(run.len() as int) =~= rest);
    }
}

/// Every element of `words(s)` is a word: not empty and free of whitespace.
pub proof fn lemma_words_are_words(s: Seq<char>)
    ensures
        forall|i: int| 0 <= i < words(s).len() ==> is_word(#[trigger] words(s)[i]),
    decreases s.len(),
{
    if s.len() == 0 {
        assert(words(s).len() == 0);
    } else if is_space(s[0]) {
        lemma_words_are_words(s.skip(1));
        assert(words(s) == words(s.skip(1)));
    } else {
        lemma_word_len_bound(s);
        let n = word_len(s) as int;
        lemma_words_are_words(s.skip(n));
        assert(words(s) == seq![s.take(n)] + words(s.skip(n)));
        assert forall|i: int| 0 <= i < words(s).len() implies is_word(#[trigger] words(s)[i]) by {
            if i == 0 {
                let first = s.take(n);
                assert(words(s)[0] == first);
                assert forall|k: int| 0 <= k < first.len() implies !is_space(
                    #[trigger] first[k],
                ) by {
                    assert(first[k] == s[k]);
                }
            } else {
                assert(words(s)[i] == words(s.skip(n))[i - 1]);
            }
        }
    }
}

/// Splitting what was joined gives the pieces back, provided each piece is
/// a word.
pub proof fn lemma_words_of_join(pieces: Seq<Seq<char>>)
    requires
        forall|i: int| 0 <= i < pieces.len() ==> is_word(#[trigger] pieces[i]),
    ensures
        words(join(pieces)) == pieces,
    decreases pieces.len(),
{
    if pieces.len() == 0 {
    } else if pieces.len() == 1 {
        lemma_words_run(pieces[0], Seq::empty());
        assert(pieces[0] + Seq::<char>::empty() =~= pieces[0]);
        assert(seq![pieces[0]] + Seq::<Seq<char>>::empty() =~= pieces);
    } else {
        let front = pieces.drop_last();
        let last = pieces.last();
        lemma_words_of_join(front);
        lemma_words_append(join(front), last);
        assert(front.push(last) =~= pieces);
    }
}

/// Appending a space and a word to a string appends the word to its words.
pub proof fn lemma_words_append(s: Seq<char>, word: Seq<char>)
    requires
        is_word(word),
    ensures
        words(s + seq![' '] + word) == words(s).push(word),
    decreases s.len(),
{
    let tail = seq![' '] + word;
    assert(s + seq![' '] + word =~= s + tail);
    if s.len() == 0 {
        assert(s + tail =~= tail);
        assert(tail.skip(1) =~= word);
        lemma_words_run(word, Seq::empty());
        assert(word + Seq::<char>::empty() =~= word);
        assert(seq![word] + Seq::<Seq<char>>::empty() =~= Seq::<Seq<char>>::empty().push(word));
    } else if is_space(s[0]) {
        assert((s + tail).skip(1) =~= s.skip(1) + tail);
        assert(s.skip(1) + seq![' '] + word =~= s.skip(1) + tail);
        lemma_words_append(s.skip(1), word);
    } else {
        lemma_word_len_bound(s);
        let n = word_len(s) as int;
        let run = s.take(n);
        let rest = s.skip(n);
        assert(s =~= run + rest);
        assert(s + tail =~= run + (rest + tail));
        assert((rest + tail).len() > 0 && is_space((rest + tail)[0])) by {
            if rest.len() > 0 {
                assert((rest + tail)[0] == rest[0]);
                assert(rest[0] == s[n]);
            } else {
                assert((rest + tail)[0] == ' ');
            }
        }
        lemma_words_run(run, rest + tail);
        assert(rest + seq![' '] + word =~= rest + tail);
        lemma_words_append(rest, word);
        assert(seq![run] + words(rest).push(word) =~= (seq![run] + words(rest)).push(word));
    }
}

/// Decides [`is_space`].
pub fn is_space_char(c: char) -> (r: bool)
    ensures
        r == is_space(c),
{
    ('\u{9}' <= c && c <= '\u{d}') || c == ' ' || c == '\u{85}' || c == '\u{a0}' || c == '\u{1680}'
        || ('\u{2000}' <= c && c <= '\u{200a}') || c == '\u{2028}' || c == '\u{2029}' || c
        == '\u{202f}' || c == '\u{205f}' || c == '\u{3000}'
}

/// Splits `text` on runs of whitespace and returns the pieces in order.
/// None of them is empty and none holds whitespace.
pub fn split_words(text: &str) -> (pieces: Vec<String>)
    ensures
        pieces.deep_view() == words(text@),
        forall|i: int| 0 <= i < pieces.len() ==> is_word(#[trigger] pieces[i]@),
{
    let mut pieces: Vec<String> = Vec::new();
    let mut current = String::new();
    proof {
        assert(current@ + text@.skip(0) =~= text@);
        assert(pieces.deep_view() + words(text@) =~= words(text@));
    }
    for c in it: text.chars()
        invariant
            it.seq() == text@,
            forall|k: int| 0 <= k < current@.len() ==> !is_space(#[trigger] current@[k]),
            words(text@) == pieces.deep_view() + words(current@ + text@.skip(it.index())),
    {
        let ghost i = it.index();
        let ghost rest = text@.skip(i);
        let ghost done = pieces.deep_view();
        let ghost run = current@;
        proof {
            assert(rest.len() > 0 && rest[0] == c);
            assert(rest.skip(1) =~= text@.skip(i + 1));
        }
        if is_space_char(c) {
            proof {
                lemma_words_run(current@, rest);
            }
            if !current.as_str().is_empty() {
                pieces.push(current);
                current = String::new();
                proof {
                    assert(pieces.deep_view() =~= done + seq![run]) by {
                        assert(pieces.deep_view().len() == done.len() + 1);
                    }
                }
            }
            proof {
                assert(current@ + text@.skip(i + 1) =~= text@.skip(i + 1));
            }
        } else {
            current.push(c);
            proof {
                assert(current@ + text@.skip(i + 1) =~= run + rest);
            }
        }
    }
    proof {
        let rest = text@.skip(text@.len() as int);
        assert(rest.len() == 0);
        lemma_words_run(current@, rest);
    }
    if !current.as_str().is_empty() {
        let ghost done = pieces.deep_view();
        let ghost run = current@;
        pieces.push(current);
        proof {
            assert(pieces.deep_view() =~= done + seq![run]) by {
                assert(pieces.deep_view().len() == done.len() + 1);
            }
        }
    }
    proof {
        lemma_words_are_words(text@);
        assert forall|i: int| 0 <= i < pieces.len() implies is_word(#[trigger] pieces[i]@) by {
            assert(pieces[i]@ == pieces.deep_view()[i]);
        }
    }
    pieces
}

/// Joins the pieces with single spaces.
pub fn join_words(pieces: &Vec<String>) -> (joined: String)
    ensures
        joined@ == join(pieces.deep_view()),
{
    let mut joined = String::new();
    let mut i: usize = 0;
    while i < pieces.len()
        invariant
            i <= pieces.len(),
            joined@ == join(pieces.deep_view().take(i as int)),
        decreases pieces.len() - i,
    {
        proof {
            let upto = pieces.deep_view().take(i + 1);
            assert(upto.drop_last() =~= pieces.deep_view().take(i as int));
            assert(upto.last() == pieces[i as int]@);
            if i == 0 {
                assert(joined@ + pieces[0]@ =~= pieces[0]@);
            }
        }
        if i > 0 {
            joined.push(' ');
        }
        joined.append(pieces[i].as_str());
        i += 1;
    }
    proof {
        assert(pieces.deep_view().take(pieces.len() as int) =~= pieces.deep_view());
    }
    joined
}

} // verus!
