//! Whitespace, tokens and trimming on text, modelled as sequences of
//! characters.

use vstd::prelude::*;

verus! {

/// Appending one character to a `String` (`String::push`): the view grows by
/// exactly that character at its end.
pub assume_specification[ String::push ](s: &mut String, c: char)
    ensures
        final(s)@ == old(s)@.push(c),
;

/// The characters with the Unicode property `White_Space`.
pub open spec fn is_whitespace(c: char) -> bool {
    ||| ('\u{9}' <= c && c <= '\u{d}')
    ||| c == ' '
    ||| c == '\u{85}'
    ||| c == '\u{a0}'
    ||| c == '\u{1680}'
    ||| ('\u{2000}' <= c && c <= '\u{200a}')
    ||| c == '\u{2028}'
    ||| c == '\u{2029}'
    ||| c == '\u{202f}'
    ||| c == '\u{205f}'
    ||| c == '\u{3000}'
}

/// No character of `s` is whitespace.
pub open spec fn no_whitespace(s: Seq<char>) -> bool {
    forall|i: int| 0 <= i < s.len() ==> !is_whitespace(#[trigger] s[i])
}

/// What a reader holds after going through a text from left to right: the
/// tokens that have ended, and the characters of the one it is in.
pub struct Scan {
    pub done: Seq<Seq<char>>,
    pub word: Seq<char>,
}

/// The state of the reader after one more character.
pub open spec fn scan_char(st: Scan, c: char) -> Scan {
    if is_whitespace(c) {
        if st.word.len() > 0 {
            Scan { done: st.done.push(st.word), word: Seq::empty() }
        } else {
            st
        }
    } else {
        Scan { done: st.done, word: st.word.push(c) }
    }
}

/// The state of the reader at the end of `s`.
pub open spec fn scan(s: Seq<char>) -> Scan
    decreases s.len(),
{
    if s.len() == 0 {
        Scan { done: Seq::empty(), word: Seq::empty() }
    } else {
        scan_char(scan(s.drop_last()), s.last())
    }
}

/// The tokens of a text: its maximal runs of characters that are not
/// whitespace, in the order in which they occur.
pub open spec fn tokens(s: Seq<char>) -> Seq<Seq<char>> {
    let st = scan(s);
    if st.word.len() > 0 {
        st.done.push(st.word)
    } else {
        st.done
    }
}

/// The views of a list of strings.
pub open spec fn views(v: Seq<String>) -> Seq<Seq<char>> {
    Seq::new(v.len(), |i: int| v[i]@)
}

/// `s` without the whitespace it begins with.
pub open spec fn trim_start(s: Seq<char>) -> Seq<char>
    decreases s.len(),
{
    if s.len() > 0 && is_whitespace(s[0]) {
        trim_start(s.drop_first())
    } else {
        s
    }
}

/// `s` without the whitespace it ends with.
pub open spec fn trim_end(s: Seq<char>) -> Seq<char>
    decreases s.len(),
{
    if s.len() > 0 && is_whitespace(s.last()) {
        trim_end(s.drop_last())
    } else {
        s
    }
}

/// `s` without the whitespace at either end.
pub open spec fn trimmed(s: Seq<char>) -> Seq<char> {
    trim_end(trim_start(s))
}

/// Tells whether `c` is whitespace.
pub fn is_whitespace_char(c: char) -> (b: bool)
    ensures
        b == is_whitespace(c),
{
    ('\u{9}' <= c && c <= '\u{d}') || c == ' ' || c == '\u{85}' || c == '\u{a0}' || c == '\u{1680}'
        || ('\u{2000}' <= c && c <= '\u{200a}') || c == '\u{2028}' || c == '\u{2029}' || c
        == '\u{202f}' || c == '\u{205f}' || c == '\u{3000}'
}

/// Splits a text into its tokens.
pub fn split_whitespace(s: &str) -> (v: Vec<String>)
    ensures
        views(v@) == tokens(s@),
{
    let mut done: Vec<String> = Vec::new();
    let mut word = String::new();
    let mut in_word: bool = false;
    for c in it: s.chars()
        invariant
            it.seq() == s@,
            views(done@) == scan(s@.take(it.index())).done,
            word@ == scan(s@.take(it.index())).word,
            in_word == (word@.len() > 0),
    {
        proof {
            let k = it.index();
            assert(s@.take(k + 1).drop_last() =~= s@.take(k));
            assert(s@.take(k + 1).last() == c);
        }
        if is_whitespace_char(c) {
            if in_word {
                let ghost before = done@;
                let ghost w = word@;
                done.push(word);
                assert(views(done@) =~= views(before).push(w));
                word = String::new();
                in_word = false;
            }
        } else {
            word.push(c);
            in_word = true;
        }
    }
    assert(s@.take(s@.len() as int) =~= s@);
    if in_word {
        let ghost before = done@;
        let ghost w = word@;
        done.push(word);
        assert(views(done@) =~= views(before).push(w));
    }
    done
}

/// Where the first `a` characters of `s` are whitespace and the next one, if
/// there is one, is not, `s` begins to matter at `a`.
pub proof fn lemma_trim_start(s: Seq<char>, a: int)
    requires
        0 <= a <= s.len(),
        forall|i: int| 0 <= i < a ==> is_whitespace(#[trigger] s[i]),
        a < s.len() ==> !is_whitespace(s[a]),
    ensures
        trim_start(s) == s.skip(a),
    decreases a,
{
    if a == 0 {
        assert(s.skip(0) =~= s);
    } else {
        assert(is_whitespace(s[0]));
        let r = s.drop_first();
        assert forall|i: int| 0 <= i < a - 1 implies is_whitespace(#[trigger] r[i]) by {
            assert(r[i] == s[i + 1]);
        }
        lemma_trim_start(r, a - 1);
        assert(r.skip(a - 1) =~= s.skip(a));
    }
}

/// Where the characters of `s` from `b` on are whitespace and the one before,
/// if there is one, is not, `s` ceases to matter at `b`.
pub proof fn lemma_trim_end(s: Seq<char>, b: int)
    requires
        0 <= b <= s.len(),
        forall|i: int| b <= i < s.len() ==> is_whitespace(#[trigger] s[i]),
        0 < b ==> !is_whitespace(s[b - 1]),
    ensures
        trim_end(s) == s.take(b),
    decreases s.len() - b,
{
    if b == s.len() {
        assert(s.take(b) =~= s);
    } else {
        assert(is_whitespace(s.last()));
        let r = s.drop_last();
        lemma_trim_end(r, b);
        assert(r.take(b) =~= s.take(b));
    }
}

/// The characters of a text.
pub fn to_chars(s: &str) -> (v: Vec<char>)
    ensures
        v@ == s@,
{
    let mut v: Vec<char> = Vec::new();
    for c in it: s.chars()
        invariant
            it.seq() == s@,
            v@ == s@.take(it.index()),
    {
        v.push(c);
    }
    v
}

/// A text without the whitespace at either end.
pub fn trim(s: &str) -> (t: String)
    ensures
        t@ == trimmed(s@),
{
    let v = to_chars(s);
    let mut a: usize = 0;
    while a < v.len() && is_whitespace_char(v[a])
        invariant
            a <= v.len(),
            forall|i: int| 0 <= i < a ==> is_whitespace(#[trigger] v@[i]),
        decreases v.len() - a,
    {
        a += 1;
    }
    let mut b: usize = v.len();
    while b > a && is_whitespace_char(v[b - 1])
        invariant
            a <= b <= v.len(),
            forall|i: int| b <= i < v.len() ==> is_whitespace(#[trigger] v@[i]),
        decreases b,
    {
        b -= 1;
    }
    proof {
        lemma_trim_start(v@, a as int);
        let r = v@.skip(a as int);
        assert forall|i: int| b - a <= i < r.len() implies is_whitespace(#[trigger] r[i]) by {
            assert(r[i] == v@[i + a]);
        }
        lemma_trim_end(r, b - a);
    }
    let mut t = String::new();
    let mut i: usize = a;
    while i < b
        invariant
            a <= i <= b <= v.len(),
            t@ == v@.subrange(a as int, i as int),
        decreases b - i,
    {
        t.push(v[i]);
        i += 1;
    }
    assert(v@.subrange(a as int, b as int) =~= v@.skip(a as int).take(b - a));
    t
}

/// Single characters join a reader's state as `scan_char` says.
pub proof fn lemma_scan_push(s: Seq<char>, c: char)
    ensures
        scan(s.push(c)) == scan_char(scan(s), c),
{
    assert(s.push(c).drop_last() =~= s);
}

/// Characters that are not whitespace lengthen the token the reader is in.
pub proof fn lemma_scan_word(s: Seq<char>, w: Seq<char>)
    requires
        no_whitespace(w),
    ensures
        scan(s + w) == (Scan { done: scan(s).done, word: scan(s).word + w }),
    decreases w.len(),
{
    if w.len() == 0 {
        assert(s + w =~= s);
        assert(scan(s).word + w =~= scan(s).word);
    } else {
        let front = w.drop_last();
        assert(no_whitespace(front)) by {
            assert forall|i: int| 0 <= i < front.len() implies !is_whitespace(
                #[trigger] front[i],
            ) by {
                assert(front[i] == w[i]);
            }
        }
        lemma_scan_word(s, front);
        assert(!is_whitespace(w.last()));
        assert((s + w).drop_last() =~= s + front);
        assert((scan(s).word + front).push(w.last()) =~= scan(s).word + w);
    }
}

/// The text made of `parts` with `sep` between each two of them.
pub open spec fn joined(parts: Seq<Seq<char>>, sep: Seq<char>) -> Seq<char>
    decreases parts.len(),
{
    if parts.len() == 0 {
        Seq::empty()
    } else if parts.len() == 1 {
        parts[0]
    } else {
        joined(parts.drop_last(), sep) + sep + parts.last()
    }
}

/// Each of `words` is a token: not empty, and free of whitespace.
pub open spec fn all_words(words: Seq<Seq<char>>) -> bool {
    forall|i: int|
        0 <= i < words.len() ==> (#[trigger] words[i]).len() > 0 && no_whitespace(words[i])
}

/// A reader that is between tokens and then reads words joined by single
/// spaces has seen all of them but the last, which it is still in.
pub proof fn lemma_scan_joined(s: Seq<char>, words: Seq<Seq<char>>)
    requires
        scan(s).word.len() == 0,
        words.len() > 0,
        all_words(words),
    ensures
        scan(s + joined(words, seq![' '])) == (Scan {
            done: scan(s).done + words.drop_last(),
            word: words.last(),
        }),
    decreases words.len(),
{
    let sep = seq![' '];
    if words.len() == 1 {
        lemma_scan_word(s, words[0]);
        assert(scan(s).word + words[0] =~= words[0]);
        assert(scan(s).done + words.drop_last() =~= scan(s).done);
    } else {
        let front = words.drop_last();
        assert(all_words(front)) by {
            assert forall|i: int| 0 <= i < front.len() implies (#[trigger] front[i]).len() > 0
                && no_whitespace(front[i]) by {
                assert(front[i] == words[i]);
            }
        }
        lemma_scan_joined(s, front);
        let a = s + joined(front, sep);
        lemma_scan_push(a, ' ');
        assert(a.push(' ') =~= a + sep);
        lemma_scan_word(a + sep, words.last());
        assert(s + joined(words, sep) =~= a + sep + words.last());
        assert(Seq::<char>::empty() + words.last() =~= words.last());
        assert((scan(s).done + front.drop_last()).push(front.last()) =~= scan(s).done
            + words.drop_last());
    }
}

/// What a reader holds are tokens: the ones that have ended are not empty
/// and free of whitespace, and so is what it has of the one it is in.
pub proof fn lemma_scan_words(s: Seq<char>)
    ensures
        all_words(scan(s).done),
        no_whitespace(scan(s).word),
    decreases s.len(),
{
    if s.len() > 0 {
        lemma_scan_words(s.drop_last());
        let before = scan(s.drop_last());
        let after = scan(s);
        if is_whitespace(s.last()) {
            if before.word.len() > 0 {
                assert forall|i: int| 0 <= i < after.done.len() implies (#[trigger] after.done[i]).len()
                    > 0 && no_whitespace(after.done[i]) by {
                    if i < before.done.len() {
                        assert(after.done[i] == before.done[i]);
                    }
                }
            }
        } else {
            assert forall|i: int| 0 <= i < after.word.len() implies !is_whitespace(
                #[trigger] after.word[i],
            ) by {
                if i < before.word.len() {
                    assert(after.word[i] == before.word[i]);
                }
            }
        }
    }
}

/// Every token of a text is a word: it is not empty and holds no
/// whitespace.
pub proof fn lemma_tokens_are_words(s: Seq<char>)
    ensures
        all_words(tokens(s)),
{
    lemma_scan_words(s);
    let st = scan(s);
    if st.word.len() > 0 {
        let t = tokens(s);
        assert forall|i: int| 0 <= i < t.len() implies (#[trigger] t[i]).len() > 0
            && no_whitespace(t[i]) by {
            if i < st.done.len() {
                assert(t[i] == st.done[i]);
            }
        }
    }
}

/// Words joined by single spaces are the tokens of the text they make.
pub proof fn lemma_tokens_of_joined(words: Seq<Seq<char>>)
    requires
        all_words(words),
    ensures
        tokens(joined(words, seq![' '])) == words,
{
    let e = Seq::<char>::empty();
    if words.len() > 0 {
        lemma_scan_joined(e, words);
        assert(e + joined(words, seq![' ']) =~= joined(words, seq![' ']));
        assert((scan(e).done + words.drop_last()).push(words.last()) =~= words);
    } else {
        assert(tokens(e) =~= words);
    }
}

} // verus!
