//! Validation of a contestant's output: from tokens to a successor table.

use vstd::prelude::*;
use crate::decimal::{parse_token, parse_usize};
use crate::error::{JudgeError, JudgeErrorView};
use crate::input::Input;
use crate::simulate::valid_table;
use crate::text::{split_whitespace, tokens, views};

verus! {

/// A successor table as a contestant gives it: for each position its two
/// successors.
#[derive(Clone, Debug, PartialEq, Eq)]
pub struct Output {
    pub out: Vec<(usize, usize)>,
}

impl View for Output {
    type V = Seq<(usize, usize)>;

    open spec fn view(&self) -> Seq<(usize, usize)> {
        self.out@
    }
}

/// The verdict on one token that is due: it must be there, denote an
/// integer, and lie within `lb ..= ub`. The value is taken as it is read,
/// never brought into range.
pub open spec fn check_token(token: Option<Seq<char>>, lb: usize, ub: usize) -> Result<
    usize,
    JudgeErrorView,
> {
    match token {
        None => Err(JudgeErrorView::UnexpectedEof),
        Some(s) => match parse_usize(s) {
            None => Err(JudgeErrorView::Parse { token: s }),
            Some(v) => if v < lb || ub < v {
                Err(JudgeErrorView::Range { value: v, lb, ub })
            } else {
                Ok(v)
            },
        },
    }
}

/// The token denotes a position of a table of size `n`.
pub open spec fn names_position(token: Seq<char>, n: usize) -> bool {
    match parse_usize(token) {
        Some(v) => v < n,
        None => false,
    }
}

/// The token at place `k` of a stream, if the stream is that long.
pub open spec fn token_at(toks: Seq<Seq<char>>, k: int) -> Option<Seq<char>> {
    if 0 <= k < toks.len() {
        Some(toks[k])
    } else {
        None
    }
}

/// The verdict on the token at place `k` of a stream that is to name
/// positions of a table of size `n`.
pub open spec fn check_at(toks: Seq<Seq<char>>, n: usize, k: int) -> Result<usize, JudgeErrorView> {
    check_token(token_at(toks, k), 0, (n - 1) as usize)
}

/// The first `k` places of the stream hold valid tokens.
pub open spec fn valid_upto(toks: Seq<Seq<char>>, n: usize, k: int) -> bool {
    forall|j: int| 0 <= j < k ==> (#[trigger] check_at(toks, n, j)) is Ok
}

/// The first place among the first `k` whose token is not valid.
pub open spec fn first_invalid(toks: Seq<Seq<char>>, n: usize, k: nat) -> Option<int>
    decreases k,
{
    if k == 0 {
        None
    } else {
        match first_invalid(toks, n, (k - 1) as nat) {
            Some(j) => Some(j),
            None => if check_at(toks, n, k - 1) is Err {
                Some(k - 1)
            } else {
                None
            },
        }
    }
}

/// The pairs that the first `2 * n` tokens denote.
pub open spec fn pairs_of(toks: Seq<Seq<char>>, n: usize) -> Seq<(usize, usize)> {
    Seq::new(
        n as nat,
        |i: int| (check_at(toks, n, 2 * i)->Ok_0, check_at(toks, n, 2 * i + 1)->Ok_0),
    )
}

/// The verdict on a token stream for a table of size `n`, with `n >= 1`.
///
/// The first `2 * n` places are checked in order, and the first failure
/// decides: a place beyond the end of the stream, a token that is no
/// integer, an integer that is no position. After them the stream must be
/// at its end. Otherwise the tokens, taken two by two, are the table.
pub open spec fn validate_stream(toks: Seq<Seq<char>>, n: usize) -> Result<
    Seq<(usize, usize)>,
    JudgeErrorView,
> {
    match first_invalid(toks, n, 2 * n as nat) {
        Some(j) => Err(check_at(toks, n, j)->Err_0),
        None => if toks.len() > 2 * n {
            Err(JudgeErrorView::TooManyTokens { text: toks[2 * n] })
        } else {
            Ok(pairs_of(toks, n))
        },
    }
}

/// The verdict on one line of an interactive answer for a table of size
/// `n`, with `n >= 1`: its first two tokens are checked in order, and a
/// third token is one too many.
pub open spec fn validate_line(line: Seq<char>, n: usize) -> Result<(usize, usize), JudgeErrorView> {
    let toks = tokens(line);
    match check_at(toks, n, 0) {
        Err(e) => Err(e),
        Ok(a) => match check_at(toks, n, 1) {
            Err(e) => Err(e),
            Ok(b) => if toks.len() > 2 {
                Err(JudgeErrorView::TooManyTokens { text: line })
            } else {
                Ok((a, b))
            },
        },
    }
}

/// `first_invalid` finds nothing exactly where every place is valid, and
/// what it finds is the least invalid place.
pub proof fn lemma_first_invalid(toks: Seq<Seq<char>>, n: usize, k: nat)
    ensures
        first_invalid(toks, n, k) is None <==> valid_upto(toks, n, k as int),
        first_invalid(toks, n, k) matches Some(j) ==> 0 <= j < k && check_at(toks, n, j) is Err
            && valid_upto(toks, n, j),
    decreases k,
{
    if k > 0 {
        lemma_first_invalid(toks, n, (k - 1) as nat);
        if first_invalid(toks, n, (k - 1) as nat) is None {
            if check_at(toks, n, k - 1) is Ok {
                assert forall|j: int| 0 <= j < k implies (#[trigger] check_at(toks, n, j)) is Ok by {
                    if j < k - 1 {
                        assert(valid_upto(toks, n, k - 1));
                    }
                }
            }
        } else {
            let j = first_invalid(toks, n, (k - 1) as nat)->Some_0;
            assert(check_at(toks, n, j) is Err);
        }
    }
}

/// Strictness of the validator: a stream is accepted exactly where it has
/// `2 * n` tokens and each of them denotes a position of the table, and the
/// accepted table holds the numbers as they were read. An out-of-range
/// index, a token that is no integer, a short stream and a surplus token
/// each lead to a failure.
pub proof fn lemma_validator_strict(toks: Seq<Seq<char>>, n: usize)
    requires
        n >= 1,
    ensures
        validate_stream(toks, n) is Ok <==> toks.len() == 2 * n && (forall|k: int|
            0 <= k < toks.len() ==> names_position(#[trigger] toks[k], n)),
        validate_stream(toks, n) matches Ok(table) ==> table.len() == n && valid_table(table)
            && (forall|i: int|
            0 <= i < n ==> parse_usize(toks[2 * i]) == Some((#[trigger] table[i]).0)
                && parse_usize(toks[2 * i + 1]) == Some(table[i].1)),
{
    lemma_first_invalid(toks, n, 2 * n as nat);
    let accepted = toks.len() == 2 * n && (forall|k: int|
        0 <= k < toks.len() ==> names_position(#[trigger] toks[k], n));
    if validate_stream(toks, n) is Ok {
        assert(valid_upto(toks, n, 2 * n));
        assert(toks.len() <= 2 * n);
        if toks.len() < 2 * n {
            assert(check_at(toks, n, toks.len() as int) is Ok);
        }
        assert forall|k: int| 0 <= k < toks.len() implies names_position(
            #[trigger] toks[k],
            n,
        ) by {
            assert(check_at(toks, n, k) is Ok);
        }
        let table = validate_stream(toks, n)->Ok_0;
        assert forall|i: int| 0 <= i < n implies parse_usize(toks[2 * i]) == Some(
            (#[trigger] table[i]).0,
        ) && parse_usize(toks[2 * i + 1]) == Some(table[i].1) && table[i].0 < n && table[i].1
            < n by {
            assert(check_at(toks, n, 2 * i) is Ok);
            assert(check_at(toks, n, 2 * i + 1) is Ok);
        }
    }
    if accepted {
        assert forall|j: int| 0 <= j < 2 * n implies (#[trigger] check_at(toks, n, j)) is Ok by {
            assert(names_position(toks[j], n));
        }
    }
}

/// Where the places before `k` are valid and place `k` is not, `k` is the
/// first invalid place.
pub proof fn lemma_first_invalid_at(toks: Seq<Seq<char>>, n: usize, k: int, bound: nat)
    requires
        0 <= k < bound,
        valid_upto(toks, n, k),
        check_at(toks, n, k) is Err,
    ensures
        first_invalid(toks, n, bound) == Some(k),
{
    lemma_first_invalid(toks, n, bound);
    if first_invalid(toks, n, bound) is Some {
        let j = first_invalid(toks, n, bound)->Some_0;
        if j < k {
            assert(check_at(toks, n, j) is Ok);
        }
        if k < j {
            assert(valid_upto(toks, n, j));
            assert(check_at(toks, n, k) is Ok);
        }
    } else {
        assert(check_at(toks, n, k) is Ok);
    }
}

/// The text of a token that may be missing.
pub open spec fn token_text(token: Option<&str>) -> Option<Seq<char>> {
    match token {
        Some(s) => Some(s@),
        None => None,
    }
}

/// Strictness of the validator on a single line: a line is accepted
/// exactly where it has two tokens and both denote positions of the table,
/// and the accepted pair holds the numbers as they were read.
pub proof fn lemma_line_validator_strict(line: Seq<char>, n: usize)
    requires
        n >= 1,
    ensures
        validate_line(line, n) is Ok <==> tokens(line).len() == 2 && names_position(
            tokens(line)[0],
            n,
        ) && names_position(tokens(line)[1], n),
        validate_line(line, n) matches Ok(pair) ==> parse_usize(tokens(line)[0]) == Some(pair.0)
            && parse_usize(tokens(line)[1]) == Some(pair.1) && pair.0 < n && pair.1 < n,
{
}

/// Checks one token that is due against the bounds `lb ..= ub`.
///
/// A missing token is an unexpected end, a token that is no integer (or
/// none that the machine can hold) a parse error, and an integer outside
/// the bounds a range error; any other token is returned as its value.
pub fn read(token: Option<&str>, lb: usize, ub: usize) -> (r: Result<usize, JudgeError>)
    ensures
        match r {
            Ok(v) => check_token(token_text(token), lb, ub) == Ok::<usize, JudgeErrorView>(v),
            Err(e) => check_token(token_text(token), lb, ub) == Err::<usize, JudgeErrorView>(e@),
        },
{
    match token {
        Some(s) => match parse_token(s) {
            Some(v) => if v < lb || ub < v {
                Err(JudgeError::Range { value: v, lb, ub })
            } else {
                Ok(v)
            },
            None => Err(JudgeError::Parse { token: s.to_owned() }),
        },
        None => Err(JudgeError::UnexpectedEof),
    }
}

/// The token at place `k` of a list of tokens, if the list is that long.
fn nth_token(toks: &Vec<String>, k: usize) -> (token: Option<&str>)
    ensures
        token_text(token) == token_at(views(toks@), k as int),
{
    if k < toks.len() {
        assert(views(toks@)[k as int] == toks@[k as int]@);
        Some(toks[k].as_str())
    } else {
        None
    }
}

/// Validates a contestant's whole output against an instance.
///
/// The output is accepted exactly where it consists of `2 * n` tokens that
/// each denote a position; the table then holds these numbers two by two,
/// as they were read. Otherwise the first failure in reading order is
/// returned.
#[verifier::loop_isolation(false)]
pub fn parse_output(input: &Input, f: &str) -> (r: Result<Output, JudgeError>)
    requires
        input.n >= 1,
    ensures
        match r {
            Ok(o) => validate_stream(tokens(f@), input.n) == Ok::<
                Seq<(usize, usize)>,
                JudgeErrorView,
            >(o@),
            Err(e) => validate_stream(tokens(f@), input.n) == Err::<
                Seq<(usize, usize)>,
                JudgeErrorView,
            >(e@),
        },
        r matches Ok(o) ==> o@.len() == input.n && valid_table(o@),
        r is Ok <==> tokens(f@).len() == 2 * input.n && (forall|k: int|
            0 <= k < tokens(f@).len() ==> names_position(#[trigger] tokens(f@)[k], input.n)),
{
    let toks = split_whitespace(f);
    let n = input.n;
    let ghost tv = tokens(f@);
    proof {
        lemma_validator_strict(tv, n);
    }
    let mut out: Vec<(usize, usize)> = Vec::new();
    let mut i: usize = 0;
    let mut k: usize = 0;
    while i < n
        invariant
            n >= 1,
            i <= n,
            k == 2 * i,
            k <= toks.len(),
            tv == tokens(f@),
            views(toks@) == tv,
            valid_upto(tv, n, k as int),
            out@.len() == i,
            forall|j: int| 0 <= j < i ==> #[trigger] out@[j] == pairs_of(tv, n)[j],
        decreases n - i,
    {
        let a = match read(nth_token(&toks, k), 0, n - 1) {
            Ok(v) => v,
            Err(e) => {
                proof {
                    lemma_first_invalid_at(tv, n, k as int, 2 * n as nat);
                }
                return Err(e);
            },
        };
        let b = match read(nth_token(&toks, k + 1), 0, n - 1) {
            Ok(v) => v,
            Err(e) => {
                proof {
                    assert(valid_upto(tv, n, k + 1));
                    lemma_first_invalid_at(tv, n, k + 1, 2 * n as nat);
                }
                return Err(e);
            },
        };
        out.push((a, b));
        i += 1;
        k += 2;
    }
    proof {
        lemma_first_invalid(tv, n, 2 * n as nat);
    }
    if k < toks.len() {
        assert(views(toks@)[k as int] == toks@[k as int]@);
        return Err(JudgeError::TooManyTokens { text: toks[k].clone() });
    }
    assert(out@ =~= pairs_of(tv, n));
    Ok(Output { out })
}

/// Validates one line of an interactive answer for a table of size `n`: it
/// must hold two positions and nothing else.
pub fn parse_pair(line: &str, n: usize) -> (r: Result<(usize, usize), JudgeError>)
    requires
        n >= 1,
    ensures
        match r {
            Ok(p) => validate_line(line@, n) == Ok::<(usize, usize), JudgeErrorView>(p),
            Err(e) => validate_line(line@, n) == Err::<(usize, usize), JudgeErrorView>(e@),
        },
        r matches Ok(p) ==> p.0 < n && p.1 < n,
{
    let toks = split_whitespace(line);
    let a = match read(nth_token(&toks, 0), 0, n - 1) {
        Ok(v) => v,
        Err(e) => {
            return Err(e);
        },
    };
    let b = match read(nth_token(&toks, 1), 0, n - 1) {
        Ok(v) => v,
        Err(e) => {
            return Err(e);
        },
    };
    if toks.len() > 2 {
        return Err(JudgeError::TooManyTokens { text: line.to_owned() });
    }
    Ok((a, b))
}

} // verus!
