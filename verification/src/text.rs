//! Strings: what they spell out, and how a line falls into words.

use vstd::prelude::*;
use vstd::std_specs::iter::IteratorSpec;

verus! {

/// The characters that separate words: those with the Unicode property
/// `White_Space`.
pub open spec fn is_space(c: char) -> bool {
    let u = c as u32;
    ||| 0x09 <= u <= 0x0D
    ||| u == 0x20
    ||| u == 0x85
    ||| u == 0xA0
    ||| u == 0x1680
    ||| 0x2000 <= u <= 0x200A
    ||| u == 0x2028
    ||| u == 0x2029
    ||| u == 0x202F
    ||| u == 0x205F
    ||| u == 0x3000
}

/// No character of `s` separates words.
pub open spec fn no_space(s: Seq<char>) -> bool {
    forall|i: int| 0 <= i < s.len() ==> !is_space(#[trigger] s[i])
}

/// The length of the longest prefix of `s` that holds no separator.
pub open spec fn word_len(s: Seq<char>) -> nat
    decreases s.len(),
{
    if s.len() == 0 || is_space(s[0]) {
        0
    } else {
        1 + word_len(s.drop_first())
    }
}

/// The words of a line: its maximal runs of characters that are not
/// separators, from left to right.
pub open spec fn words(s: Seq<char>) -> Seq<Seq<char>>
    decreases s.len(),
    via words_decreases
{
    if s.len() == 0 {
        Seq::empty()
    } else if is_space(s[0]) {
        words(s.drop_first())
    } else {
        let n = word_len(s) as int;
        seq![s.take(n)] + words(s.skip(n))
    }
}

#[via_fn]
proof fn words_decreases(s: Seq<char>) {
    lemma_word_len_bounds(s);
}

/// A word is never longer than the text it starts.
pub proof fn lemma_word_len_bounds(s: Seq<char>)
    ensures
        word_len(s) <= s.len(),
        s.len() > 0 && !is_space(s[0]) ==> word_len(s) >= 1,
    decreases s.len(),
{
    if s.len() > 0 && !is_space(s[0]) {
        lemma_word_len_bounds(s.drop_first());
    }
}

/// The longest prefix without separators holds no separator.
proof fn lemma_word_has_no_space(s: Seq<char>)
    ensures
        no_space(s.take(word_len(s) as int)),
    decreases s.len(),
{
    lemma_word_len_bounds(s);
    if s.len() > 0 && !is_space(s[0]) {
        let rest = s.drop_first();
        lemma_word_has_no_space(rest);
        lemma_word_len_bounds(rest);
        let word = s.take(word_len(s) as int);
        assert forall|i: int| 0 <= i < word.len() implies !is_space(#[trigger] word[i]) by {
            if i > 0 {
                assert(word[i] == rest.take(word_len(rest) as int)[i - 1]);
            }
        }
    }
}

/// Every word of a line has at least one character and no separator in
/// it.
pub proof fn lemma_words_are_runs(s: Seq<char>)
    ensures
        forall|i: int|
            0 <= i < words(s).len() ==> (#[trigger] words(s)[i]).len() > 0 && no_space(words(s)[i]),
    decreases s.len(),
{
    if s.len() == 0 {
        assert(words(s).len() == 0);
    } else if is_space(s[0]) {
        lemma_words_are_runs(s.drop_first());
        assert(words(s) == words(s.drop_first()));
    } else {
        let n = word_len(s) as int;
        lemma_word_len_bounds(s);
        lemma_word_has_no_space(s);
        lemma_words_are_runs(s.skip(n));
        assert(words(s) == seq![s.take(n)] + words(s.skip(n)));
        assert forall|i: int| 0 <= i < words(s).len() implies (#[trigger] words(s)[i]).len() > 0
            && no_space(words(s)[i]) by {
            if i > 0 {
                assert(words(s)[i] == words(s.skip(n))[i - 1]);
            } else {
                assert(words(s)[0] == s.take(n));
            }
        }
    }
}

/// A run without separators that is followed by a separator, or by
/// nothing, is a whole word.
proof fn lemma_word_len_of_run(run: Seq<char>, rest: Seq<char>)
    requires
        no_space(run),
        rest.len() == 0 || is_space(rest[0]),
    ensures
        word_len(run + rest) == run.len(),
    decreases run.len(),
{
    if run.len() == 0 {
        assert(run + rest =~= rest);
    } else {
        assert((run + rest)[0] == run[0]);
        assert((run + rest).drop_first() =~= run.drop_first() + rest);
        lemma_word_len_of_run(run.drop_first(), rest);
    }
}

/// The words of a run followed by the rest of the line.
proof fn lemma_words_of_run(run: Seq<char>, rest: Seq<char>)
    requires
        no_space(run),
        run.len() > 0,
        rest.len() == 0 || is_space(rest[0]),
    ensures
        words(run + rest) == seq![run] + words(rest),
{
    let s = run + rest;
    lemma_word_len_of_run(run, rest);
    assert(s[0] == run[0]);
    assert(s.take(run.len() as int) =~= run);
    assert(s.skip(run.len() as int) =~= rest);
}

/// Whether `c` separates words.
pub fn is_space_char(c: char) -> (space: bool)
    ensures
        space == is_space(c),
{
    let u: u32 = c as u32;
    (0x09 <= u && u <= 0x0D) || u == 0x20 || u == 0x85 || u == 0xA0 || u == 0x1680 || (0x2000 <= u
        && u <= 0x200A) || u == 0x2028 || u == 0x2029 || u == 0x202F || u == 0x205F || u == 0x3000
}

/// What a vector of strings spells out.
pub open spec fn texts(strings: Seq<String>) -> Seq<Seq<char>> {
    Seq::new(strings.len(), |i: int| strings[i]@)
}

/// `String::push`, taken on trust from its documentation: afterwards the
/// string spells what it spelled before, with `c` at the end.
pub assume_specification[ String::push ](s: &mut String, c: char)
    ensures
        final(s)@ == old(s)@.push(c),
;

/// What `str::to_uppercase` makes of a text: each character replaced by
/// its Unicode uppercase mapping, which may be several characters long.
/// The library asks for it only where a word holds a character beyond
/// ASCII.
pub uninterp spec fn uppercase(s: Seq<char>) -> Seq<char>;

/// `str::to_uppercase`, taken on trust: the result is a function of the
/// text alone. The mapping itself is Unicode's and is not spelled out
/// here, so nothing is claimed of what a given text becomes.
#[verifier::external_body]
fn to_uppercase(s: &str) -> (upper: String)
    ensures
        upper@ == uppercase(s@),
{
    s.to_uppercase()
}

/// Whether every character of `s` is an ASCII character.
pub open spec fn is_ascii_text(s: Seq<char>) -> bool {
    forall|i: int| 0 <= i < s.len() ==> (#[trigger] s[i]) as u32 <= 0x7F
}

/// The capital of an ASCII small letter; any other character itself.
pub open spec fn ascii_upper(c: char) -> char {
    if 0x61 <= c as u32 <= 0x7A {
        ((c as u32) - 0x20) as char
    } else {
        c
    }
}

/// Two texts that differ at most in the case of their ASCII letters.
pub open spec fn same_ignoring_ascii_case(a: Seq<char>, b: Seq<char>) -> bool {
    &&& a.len() == b.len()
    &&& forall|i: int| 0 <= i < a.len() ==> ascii_upper(#[trigger] a[i]) == ascii_upper(b[i])
}

/// The uppercase form of a word. For a word of ASCII characters it is the
/// word with each small letter replaced by its capital; for any other
/// word it is what the Unicode mapping gives.
pub open spec fn upper(word: Seq<char>) -> Seq<char> {
    if is_ascii_text(word) {
        Seq::new(word.len(), |i: int| ascii_upper(word[i]))
    } else {
        uppercase(word)
    }
}

/// The uppercase form of a word.
pub fn to_upper(word: &str) -> (result: String)
    ensures
        result@ == upper(word@),
{
    let mut result = String::new();
    let mut chars = word.chars();
    let ghost mut at: int = 0;
    loop
        invariant
            0 <= at <= word@.len(),
            chars.remaining() == word@.skip(at),
            is_ascii_text(word@.take(at)),
            result@ == Seq::new(at as nat, |i: int| ascii_upper(word@[i])),
        decreases word@.len() - at,
    {
        match chars.next() {
            None => {
                assert(word@.take(at) =~= word@);
                return result;
            },
            Some(c) => {
                assert(c == word@[at]);
                assert(word@.skip(at).drop_first() =~= word@.skip(at + 1));
                let code: u32 = c as u32;
                if code > 0x7F {
                    assert(!is_ascii_text(word@));
                    return to_uppercase(word);
                }
                let capital: char = if 0x61 <= code && code <= 0x7A {
                    ((code - 0x20) as u8) as char
                } else {
                    c
                };
                assert(capital == ascii_upper(c));
                result.push(capital);
                proof {
                    assert(word@.take(at + 1) =~= word@.take(at).push(c));
                    assert(result@ =~= Seq::new((at + 1) as nat, |i: int| ascii_upper(word@[i])));
                    at = at + 1;
                }
            },
        }
    }
}

/// An ASCII word is the same as an ASCII name in capitals, but for the
/// case of its letters, exactly if its uppercase form is that name.
pub proof fn lemma_upper_ignores_ascii_case(word: Seq<char>, name: Seq<char>)
    requires
        is_ascii_text(word),
        forall|i: int| 0 <= i < name.len() ==> ascii_upper(#[trigger] name[i]) == name[i],
    ensures
        upper(word) == name <==> same_ignoring_ascii_case(word, name),
{
    if same_ignoring_ascii_case(word, name) {
        assert(upper(word) =~= name);
    }
    if upper(word) == name {
        assert forall|i: int| 0 <= i < word.len() implies ascii_upper(#[trigger] word[i])
            == ascii_upper(name[i]) by {
            assert(upper(word)[i] == ascii_upper(word[i]));
        }
    }
}

/// Whether two strings spell the same text.
pub fn same_text(a: &str, b: &str) -> (same: bool)
    ensures
        same == (a@ == b@),
{
    let mut xs = a.chars();
    let mut ys = b.chars();
    let ghost mut at: int = 0;
    loop
        invariant
            0 <= at <= a@.len(),
            at <= b@.len(),
            xs.remaining() == a@.skip(at),
            ys.remaining() == b@.skip(at),
            a@.take(at) == b@.take(at),
        decreases a@.len() - at,
    {
        let x = xs.next();
        let y = ys.next();
        match (x, y) {
            (None, None) => {
                assert(a@.take(at) =~= a@);
                assert(b@.take(at) =~= b@);
                return true;
            },
            (Some(c), Some(d)) => {
                if c != d {
                    assert(a@[at] != b@[at]);
                    return false;
                }
                assert(a@.skip(at).drop_first() =~= a@.skip(at + 1));
                assert(b@.skip(at).drop_first() =~= b@.skip(at + 1));
                assert(a@.take(at + 1) =~= a@.take(at).push(c));
                assert(b@.take(at + 1) =~= b@.take(at).push(d));
                proof {
                    at = at + 1;
                }
            },
            _ => {
                assert(a@.len() != b@.len());
                return false;
            },
        }
    }
}

/// Appending to a text that is itself a concatenation.
pub proof fn lemma_push_char(head: Seq<char>, tail: Seq<char>, c: char)
    ensures
        (head + tail).push(c) == head + tail.push(c),
{
    assert((head + tail).push(c) =~= head + tail.push(c));
}

/// Splits a line into its words.
pub fn split_words(line: &str) -> (result: Vec<String>)
    ensures
        texts(result@) == words(line@),
{
    let mut result: Vec<String> = Vec::new();
    let mut current = String::new();
    let mut chars = line.chars();
    let ghost mut at: int = 0;
    proof {
        assert(line@.skip(0) =~= line@);
        assert(current@ + line@ =~= line@);
        assert(texts(result@) + words(line@) =~= words(line@));
    }
    loop
        invariant
            0 <= at <= line@.len(),
            chars.remaining() == line@.skip(at),
            no_space(current@),
            words(line@) == texts(result@) + words(current@ + line@.skip(at)),
        ensures
            at == line@.len(),
        decreases line@.len() - at,
    {
        let ghost rest = line@.skip(at);
        match chars.next() {
            None => {
                break ;
            },
            Some(c) => {
                assert(c == rest[0]);
                assert(rest.drop_first() =~= line@.skip(at + 1));
                if is_space_char(c) {
                    if current.as_str().is_empty() {
                        assert(current@ + rest =~= rest);
                        assert(current@ + line@.skip(at + 1) =~= line@.skip(at + 1));
                    } else {
                        proof {
                            lemma_words_of_run(current@, rest);
                            assert(texts(result@.push(current)) =~= texts(result@) + seq![current@]);
                        }
                        result.push(current);
                        current = String::new();
                        assert(current@ + line@.skip(at + 1) =~= line@.skip(at + 1));
                    }
                } else {
                    assert(current@.push(c) + line@.skip(at + 1) =~= current@ + rest);
                    current.push(c);
                }
                proof {
                    at = at + 1;
                }
            },
        }
    }
    assert(line@.skip(at) =~= Seq::<char>::empty());
    if current.as_str().is_empty() {
        assert(current@ + line@.skip(at) =~= Seq::<char>::empty());
        assert(texts(result@) + Seq::<Seq<char>>::empty() =~= texts(result@));
    } else {
        proof {
            lemma_words_of_run(current@, line@.skip(at));
            assert(texts(result@.push(current)) =~= texts(result@) + seq![current@]);
            assert(seq![current@] + words(line@.skip(at)) =~= seq![current@]);
        }
        result.push(current);
    }
    result
}

} // verus!
