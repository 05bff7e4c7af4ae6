//! The problem instance and its text format.

use itertools::Itertools;
use vstd::prelude::*;
use vstd::string::StringExecFns;
use crate::decimal::{
    decimal, decimal_string, is_digit, lemma_decimal_digits, lemma_parse_decimal_of_decimal,
    parse_token, parse_usize, push_decimal,
};
use crate::text::{
    all_words, is_whitespace, joined, lemma_scan_joined, lemma_scan_push, lemma_scan_word,
    no_whitespace, scan, split_whitespace, tokens, views, Scan,
};

verus! {

/// A problem instance: the number of positions, the number of steps to
/// replay, and the visit count wanted of each position.
#[derive(Clone, Debug, PartialEq, Eq)]
pub struct Input {
    pub n: usize,
    pub l: usize,
    pub t: Vec<usize>,
}

/// The mathematical content of an `Input`.
pub struct InputView {
    pub n: usize,
    pub l: usize,
    pub t: Seq<usize>,
}

impl View for Input {
    type V = InputView;

    open spec fn view(&self) -> InputView {
        InputView { n: self.n, l: self.l, t: self.t@ }
    }
}

impl InputView {
    /// An instance has one target for each position.
    pub open spec fn aligned(self) -> bool {
        self.t.len() == self.n
    }

    /// A well-formed instance has at least one position, and one target for
    /// each position.
    pub open spec fn wf(self) -> bool {
        self.n >= 1 && self.aligned()
    }

    /// The targets in decimal notation.
    pub open spec fn target_words(self) -> Seq<Seq<char>> {
        Seq::new(self.t.len(), |i: int| decimal(self.t[i] as nat))
    }

    /// The first line of the text format: `n`, a space, `l`, a line feed.
    pub open spec fn header_line(self) -> Seq<char> {
        (decimal(self.n as nat).push(' ') + decimal(self.l as nat)).push('\n')
    }

    /// The second line of the text format: the targets with single spaces
    /// between them, then a line feed.
    pub open spec fn targets_line(self) -> Seq<char> {
        joined(self.target_words(), seq![' ']).push('\n')
    }

    /// The text format of an instance: the two lines, one after the other.
    pub open spec fn encode(self) -> Seq<char> {
        self.header_line() + self.targets_line()
    }
}

/// The instance that a text denotes: its first two tokens are `n` and `l`,
/// and the `n` tokens after them are the targets. How the tokens are spread
/// over lines does not matter, tokens after the last target are not looked
/// at, and no bound is imposed on any of the numbers.
pub open spec fn decode(text: Seq<char>) -> Option<InputView> {
    let toks = tokens(text);
    if toks.len() >= 2 && parse_usize(toks[0]) is Some && parse_usize(toks[1]) is Some {
        let n = parse_usize(toks[0]).unwrap();
        let l = parse_usize(toks[1]).unwrap();
        if toks.len() >= 2 + n && (forall|i: int|
            0 <= i < n ==> parse_usize(#[trigger] toks[2 + i]) is Some) {
            Some(InputView { n, l, t: Seq::new(n as nat, |i: int| parse_usize(toks[2 + i]).unwrap()) })
        } else {
            None
        }
    } else {
        None
    }
}

/// `Itertools::join` on the strings of `parts`: the result holds the strings
/// in their order, with `sep` between each two of them and nothing before
/// the first or after the last.
#[verifier::external_body]
fn join_strings(parts: &Vec<String>, sep: &str) -> (s: String)
    ensures
        s@ == joined(views(parts@), sep@),
{
    parts.iter().join(sep)
}

/// The decimal notation of a number is a token.
pub proof fn lemma_decimal_is_word(v: nat)
    ensures
        decimal(v).len() > 0,
        no_whitespace(decimal(v)),
{
    lemma_decimal_digits(v);
    let s = decimal(v);
    assert forall|i: int| 0 <= i < s.len() implies !is_whitespace(#[trigger] s[i]) by {
        assert(is_digit(s[i]));
    }
}

/// The tokens of an encoded instance are `n`, `l` and the targets in decimal
/// notation, in this order.
pub proof fn lemma_tokens_of_encode(x: InputView)
    ensures
        tokens(x.encode()) == seq![decimal(x.n as nat), decimal(x.l as nat)] + x.target_words(),
{
    let wn = decimal(x.n as nat);
    let wl = decimal(x.l as nat);
    let words = x.target_words();
    lemma_decimal_is_word(x.n as nat);
    lemma_decimal_is_word(x.l as nat);
    let e = Seq::<char>::empty();
    assert(scan(e).word.len() == 0 && scan(e).done.len() == 0);
    lemma_scan_word(e, wn);
    assert(e + wn =~= wn);
    assert(scan(e).word + wn =~= wn);
    lemma_scan_push(wn, ' ');
    let a = wn.push(' ');
    assert(scan(a) == Scan { done: seq![wn], word: e }) by {
        assert(scan(e).done.push(wn) =~= seq![wn]);
    }
    lemma_scan_word(a, wl);
    assert(e + wl =~= wl);
    let b = a + wl;
    lemma_scan_push(b, '\n');
    let h = b.push('\n');
    assert(h == x.header_line());
    assert(scan(h) == Scan { done: seq![wn, wl], word: e }) by {
        assert(seq![wn].push(wl) =~= seq![wn, wl]);
    }
    let j = joined(words, seq![' ']);
    assert(x.encode() =~= (h + j).push('\n'));
    lemma_scan_push(h + j, '\n');
    if words.len() == 0 {
        assert(h + j =~= h);
        assert(seq![wn, wl] + words =~= seq![wn, wl]);
    } else {
        assert(all_words(words)) by {
            assert forall|i: int| 0 <= i < words.len() implies (#[trigger] words[i]).len() > 0
                && no_whitespace(words[i]) by {
                lemma_decimal_is_word(x.t[i] as nat);
            }
        }
        lemma_scan_joined(h, words);
        assert((seq![wn, wl] + words.drop_last()).push(words.last()) =~= seq![wn, wl] + words);
    }
}

/// Round trip: the text of an instance that has one target for each
/// position denotes that instance.
pub proof fn lemma_decode_encode(x: InputView)
    requires
        x.aligned(),
    ensures
        decode(x.encode()) == Some(x),
{
    lemma_tokens_of_encode(x);
    let toks = tokens(x.encode());
    lemma_parse_decimal_of_decimal(x.n as nat);
    lemma_parse_decimal_of_decimal(x.l as nat);
    assert(toks[0] == decimal(x.n as nat));
    assert(toks[1] == decimal(x.l as nat));
    assert forall|i: int| 0 <= i < x.n implies parse_usize(#[trigger] toks[2 + i]) == Some(
        x.t[i],
    ) by {
        assert(toks[2 + i] == x.target_words()[i]);
        lemma_parse_decimal_of_decimal(x.t[i] as nat);
    }
    let d = decode(x.encode()).unwrap();
    assert(d.t =~= x.t);
}

impl Input {
    /// Tells whether the instance is well formed.
    pub fn is_well_formed(&self) -> (b: bool)
        ensures
            b == self@.wf(),
    {
        self.n >= 1 && self.t.len() == self.n
    }

    /// The first line of the instance's text.
    pub fn header_line(&self) -> (s: String)
        ensures
            s@ == self@.header_line(),
    {
        let mut s = decimal_string(self.n);
        s.push(' ');
        push_decimal(&mut s, self.l);
        s.push('\n');
        s
    }

    /// The second line of the instance's text.
    pub fn targets_line(&self) -> (s: String)
        ensures
            s@ == self@.targets_line(),
    {
        let mut words: Vec<String> = Vec::new();
        let mut i: usize = 0;
        while i < self.t.len()
            invariant
                i <= self.t.len(),
                words@.len() == i,
                forall|k: int| 0 <= k < i ==> (#[trigger] words@[k])@ == decimal(self.t@[k] as nat),
            decreases self.t.len() - i,
        {
            words.push(decimal_string(self.t[i]));
            i += 1;
        }
        proof {
            reveal_strlit(" ");
            assert(" "@ =~= seq![' ']);
            assert(views(words@) =~= self@.target_words());
        }
        let mut s = join_strings(&words, " ");
        s.push('\n');
        s
    }

    /// The text of the instance: `n` and `l` on its first line, the targets
    /// on its second.
    pub fn to_string(&self) -> (s: String)
        ensures
            s@ == self@.encode(),
    {
        let mut s = self.header_line();
        let second = self.targets_line();
        s.append(second.as_str());
        s
    }
}

/// Reads an instance from its text, where the text denotes one.
pub fn try_parse_input(f: &str) -> (r: Option<Input>)
    ensures
        match r {
            Some(input) => decode(f@) == Some(input@),
            None => decode(f@) is None,
        },
{
    let toks = split_whitespace(f);
    let ghost tv = tokens(f@);
    assert(forall|k: int| 0 <= k < toks@.len() ==> (#[trigger] toks@[k])@ == tv[k]) by {
        assert forall|k: int| 0 <= k < toks@.len() implies (#[trigger] toks@[k])@ == tv[k] by {
            assert(views(toks@)[k] == toks@[k]@);
        }
    }
    assert(toks@.len() == tv.len()) by {
        assert(views(toks@).len() == toks@.len());
    }
    if toks.len() < 2 {
        return None;
    }
    let n = match parse_token(toks[0].as_str()) {
        Some(v) => v,
        None => {
            return None;
        },
    };
    let l = match parse_token(toks[1].as_str()) {
        Some(v) => v,
        None => {
            return None;
        },
    };
    if toks.len() - 2 < n {
        return None;
    }
    let mut t: Vec<usize> = Vec::new();
    let mut i: usize = 0;
    while i < n
        invariant
            i <= n,
            2 + n <= toks.len(),
            tv == tokens(f@),
            toks@.len() == tv.len(),
            parse_usize(tv[0]) == Some(n),
            parse_usize(tv[1]) == Some(l),
            forall|k: int| 0 <= k < toks@.len() ==> (#[trigger] toks@[k])@ == tv[k],
            t@.len() == i,
            forall|k: int| 0 <= k < i ==> parse_usize(#[trigger] tv[2 + k]) == Some(t@[k]),
        decreases n - i,
    {
        match parse_token(toks[2 + i].as_str()) {
            Some(v) => {
                t.push(v);
            },
            None => {
                assert(parse_usize(tv[2 + i]) is None);
                return None;
            },
        }
        i += 1;
    }
    let input = Input { n, l, t };
    proof {
        let d = decode(f@).unwrap();
        assert(d.t =~= input@.t);
    }
    Some(input)
}

/// Reads an instance from its text.
pub fn parse_input(f: &str) -> (input: Input)
    requires
        decode(f@) is Some,
    ensures
        decode(f@) == Some(input@),
{
    try_parse_input(f).unwrap()
}

} // verus!
