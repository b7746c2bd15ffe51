//! Splitting a line of text into words.
//!
//! A word is a longest run of characters that holds no ASCII whitespace. The
//! words of a line are its words from left to right.

use vstd::prelude::*;

verus! {

/// `String::push` of the standard library appends one character.
pub assume_specification[ String::push ](text: &mut String, c: char)
    ensures
        final(text)@ == old(text)@.push(c),
;

/// ASCII whitespace: space, tab, line feed, form feed, carriage return.
pub open spec fn is_space(c: char) -> bool {
    c == ' ' || c == '\t' || c == '\n' || c == '\x0C' || c == '\r'
}

/// Number of whitespace characters at the start of `s`.
pub open spec fn space_run(s: Seq<char>) -> nat
    decreases s.len(),
{
    if s.len() > 0 && is_space(s[0]) {
        1 + space_run(s.drop_first())
    } else {
        0
    }
}

/// Number of characters at the start of `s` before the first whitespace.
pub open spec fn word_run(s: Seq<char>) -> nat
    decreases s.len(),
{
    if s.len() > 0 && !is_space(s[0]) {
        1 + word_run(s.drop_first())
    } else {
        0
    }
}

/// The words of `s`, from left to right.
pub open spec fn words(s: Seq<char>) -> Seq<Seq<char>>
    decreases s.len(),
    via words_decreases
{
    let start = space_run(s) as int;
    let len = word_run(s.skip(start)) as int;
    if len == 0 {
        Seq::empty()
    } else {
        seq![s.subrange(start, start + len)] + words(s.skip(start + len))
    }
}

#[via_fn]
proof fn words_decreases(s: Seq<char>) {
    lemma_space_run_bound(s);
    lemma_word_run_bound(s.skip(space_run(s) as int));
}

/// The words one after another, each followed by one space.
pub open spec fn spaced(words: Seq<Seq<char>>) -> Seq<char>
    decreases words.len(),
{
    if words.len() == 0 {
        Seq::empty()
    } else {
        spaced(words.drop_last()) + words.last() + seq![' ']
    }
}

/// The texts of a vector of strings.
pub open spec fn texts(items: Seq<String>) -> Seq<Seq<char>> {
    Seq::new(items.len(), |i: int| items[i]@)
}

/// A run of whitespace is no longer than the text.
pub proof fn lemma_space_run_bound(s: Seq<char>)
    ensures
        space_run(s) <= s.len(),
    decreases s.len(),
{
    if s.len() > 0 && is_space(s[0]) {
        lemma_space_run_bound(s.drop_first());
    }
}

/// A word is no longer than the text.
pub proof fn lemma_word_run_bound(s: Seq<char>)
    ensures
        word_run(s) <= s.len(),
    decreases s.len(),
{
    if s.len() > 0 && !is_space(s[0]) {
        lemma_word_run_bound(s.drop_first());
    }
}

/// Whitespace at the start of a text does not change its words.
proof fn lemma_words_skip_space(s: Seq<char>)
    requires
        s.len() > 0,
        is_space(s[0]),
    ensures
        words(s) == words(s.drop_first()),
{
    let t = s.drop_first();
    let start = space_run(t) as int;
    lemma_space_run_bound(t);
    lemma_word_run_bound(t.skip(start));
    assert(space_run(s) == start + 1);
    assert(s.skip(start + 1) =~= t.skip(start));
    let len = word_run(t.skip(start)) as int;
    if len > 0 {
        assert(s.subrange(start + 1, start + 1 + len) =~= t.subrange(start, start + len));
        assert(s.skip(start + 1 + len) =~= t.skip(start + len));
    }
}

/// A run of characters that are no whitespace, followed by `rest`, starts with
/// a word at least as long as the run; it is the run itself where `rest` is
/// empty or starts with whitespace.
proof fn lemma_word_run_prefix(word: Seq<char>, rest: Seq<char>)
    requires
        forall|i: int| 0 <= i < word.len() ==> !is_space(#[trigger] word[i]),
    ensures
        word_run(word + rest) == word.len() + word_run(rest),
    decreases word.len(),
{
    if word.len() > 0 {
        let tail = word.drop_first();
        assert forall|i: int| 0 <= i < tail.len() implies !is_space(#[trigger] tail[i]) by {
            assert(tail[i] == word[i + 1]);
        }
        lemma_word_run_prefix(tail, rest);
        assert((word + rest).drop_first() =~= tail + rest);
        assert((word + rest)[0] == word[0]);
    } else {
        assert(word + rest =~= rest);
    }
}

/// A word followed by the end of the text or by whitespace is the first word,
/// and the words of what follows come after it.
proof fn lemma_words_after_word(word: Seq<char>, rest: Seq<char>)
    requires
        word.len() > 0,
        forall|i: int| 0 <= i < word.len() ==> !is_space(#[trigger] word[i]),
        rest.len() == 0 || is_space(rest[0]),
    ensures
        words(word + rest) == seq![word] + words(rest),
{
    let s = word + rest;
    assert(s[0] == word[0]);
    assert(space_run(s) == 0);
    assert(s.skip(0) =~= s);
    lemma_word_run_prefix(word, rest);
    assert(word_run(rest) == 0);
    assert(s.subrange(0, word.len() as int) =~= word);
    assert(s.skip(word.len() as int) =~= rest);
}

/// Whether `c` is ASCII whitespace.
pub fn is_ascii_space(c: char) -> (yes: bool)
    ensures
        yes == is_space(c),
{
    c == ' ' || c == '\t' || c == '\n' || c == '\x0C' || c == '\r'
}

/// Splits a line into its words.
pub fn split_words(line: &str) -> (found: Vec<String>)
    ensures
        texts(found@) == words(line@),
{
    let mut found: Vec<String> = Vec::new();
    let mut word = String::new();
    proof {
        assert(texts(found@) =~= Seq::<Seq<char>>::empty());
        assert(word@ + line@.skip(0) =~= line@);
    }
    for c in it: line.chars()
        invariant
            it.seq() == line@,
            forall|i: int| 0 <= i < word@.len() ==> !is_space(#[trigger] word@[i]),
            words(line@) == texts(found@) + words(word@ + line@.skip(it.index() as int)),
    {
        let ghost at = it.index() as int;
        let ghost rest = line@.skip(at);
        proof {
            assert(rest[0] == c);
            assert(rest.drop_first() =~= line@.skip(at + 1));
        }
        if is_ascii_space(c) {
            proof {
                lemma_words_skip_space(rest);
            }
            if !word.as_str().is_empty() {
                proof {
                    lemma_words_after_word(word@, rest);
                    assert(texts(found@.push(word)) =~= texts(found@) + seq![word@]);
                    assert(Seq::<char>::empty() + line@.skip(at + 1) =~= line@.skip(at + 1));
                }
                found.push(word);
                word = String::new();
            } else {
                proof {
                    assert(word@ + rest =~= rest);
                    assert(word@ + line@.skip(at + 1) =~= line@.skip(at + 1));
                }
            }
        } else {
            proof {
                assert(word@.push(c) + line@.skip(at + 1) =~= word@ + rest);
            }
            word.push(c);
        }
    }
    let ghost end = line@.skip(line@.len() as int);
    proof {
        assert(end =~= Seq::<char>::empty());
        assert(word@ + end =~= word@);
    }
    if !word.as_str().is_empty() {
        proof {
            lemma_words_after_word(word@, end);
            assert(texts(found@.push(word)) =~= texts(found@) + seq![word@]);
            assert(words(end) =~= Seq::<Seq<char>>::empty());
        }
        found.push(word);
    } else {
        proof {
            assert(words(word@) =~= Seq::<Seq<char>>::empty());
        }
    }
    found
}

} // verus!
