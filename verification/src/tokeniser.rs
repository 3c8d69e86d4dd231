//! The lexer: a character-level scan that turns source text into a
//! token sequence, re-lexing bracketed, indexed and braced sub-regions
//! by ordinary recursion on sub-ranges of the input.
use vstd::prelude::*;

use crate::blockiser::blockise;
use crate::blockiser::blockise_spec;
use crate::token::nesting_error;
use crate::token::terr_model;
use crate::token::tmodel;
use crate::token::toks_model;
use crate::token::acc_model;
use crate::token::accs_model;
use crate::token::lemma_accs_model;
use crate::token::lemma_toks_model;
use crate::token::Access;
use crate::token::AccessModel;
use crate::token::ExpectationModel;
use crate::token::Operator;
use crate::token::Token;
use crate::token::TokenModel;
use crate::token::TokeniseError;

verus! {

use vstd::pervasive::arbitrary;
use vstd::std_specs::iter::IteratorSpec;
use vstd::string::StringExecFns;

broadcast use
    vstd::std_specs::vec::axiom_vec_index_decreases,
    vstd::seq::axiom_seq_index_decreases,
    vstd::string::next_postcondition,
    vstd::string::axiom_spec_iter;

/// How deep call, index and block sub-regions may nest. Deeper input is
/// rejected with a lexical error instead of exhausting the call stack,
/// since every nested region costs one level of recursion.
pub const NESTING_LIMIT: usize = 64;

/// An ASCII decimal digit.
pub open spec fn is_digit_c(c: char) -> bool {
    48 <= c as u32 && c as u32 <= 57
}

/// An ASCII letter.
pub open spec fn is_letter_c(c: char) -> bool {
    (65 <= c as u32 && c as u32 <= 90) || (97 <= c as u32 && c as u32 <= 122)
}

/// A character that may continue an identifier: a letter, a digit or an
/// underscore.
pub open spec fn is_ident_c(c: char) -> bool {
    is_letter_c(c) || is_digit_c(c) || c as u32 == 95
}

/// An ASCII whitespace character.
pub open spec fn is_ws_c(c: char) -> bool {
    c as u32 == 32 || (9 <= c as u32 && c as u32 <= 13)
}

fn is_digit(c: char) -> (r: bool)
    ensures
        r == is_digit_c(c),
{
    let u = c as u32;
    48 <= u && u <= 57
}

fn is_letter(c: char) -> (r: bool)
    ensures
        r == is_letter_c(c),
{
    let u = c as u32;
    (65 <= u && u <= 90) || (97 <= u && u <= 122)
}

fn is_ident_char(c: char) -> (r: bool)
    ensures
        r == is_ident_c(c),
{
    is_letter(c) || is_digit(c) || c as u32 == 95
}

fn is_ws(c: char) -> (r: bool)
    ensures
        r == is_ws_c(c),
{
    let u = c as u32;
    u == 32 || (9 <= u && u <= 13)
}

/// Relies on String::push: appends one character at the end of the
/// string.
#[verifier::external_body]
fn push_char(s: &mut String, c: char)
    ensures
        final(s)@ == old(s)@.push(c),
{
    s.push(c);
}

/// A one-character string.
fn char_string(c: char) -> (r: String)
    ensures
        r@ == seq![c],
{
    let mut s = String::new();
    push_char(&mut s, c);
    proof {
        assert(s@ =~= seq![c]);
    }
    s
}

/// The characters of a string, in order.
fn str_chars(s: &str) -> (r: Vec<char>)
    ensures
        r@ == s@,
{
    let mut it = s.chars();
    let mut out: Vec<char> = Vec::new();
    loop
        invariant
            it.obeys_prophetic_iter_laws(),
            it.decrease() is Some,
            out@ + it.remaining() == s@,
        decreases it.decrease()->0,
    {
        match it.next() {
            Some(c) => {
                out.push(c);
                proof {
                    assert(out@ + it.remaining() =~= s@);
                }
            },
            None => {
                proof {
                    assert(out@ =~= s@);
                }
                return out;
            },
        }
    }
}

/// Where the matching closing character of a nested region sits: the
/// first `close` at nesting count zero, counting only `open` and
/// `close` characters, as the lexer's bracket and block states do.
pub open spec fn find_close(
    chars: Seq<char>,
    i: int,
    to: int,
    open: char,
    close: char,
    count: int,
) -> Option<int>
    decreases to - i,
{
    if !(0 <= i && i < to && to <= chars.len()) {
        None
    } else if chars[i] == close && count == 0 {
        Some(i)
    } else if chars[i] == close {
        find_close(chars, i + 1, to, open, close, count - 1)
    } else if chars[i] == open {
        find_close(chars, i + 1, to, open, close, count + 1)
    } else {
        find_close(chars, i + 1, to, open, close, count)
    }
}

/// Scans for the matching closing character of a nested region.
fn find_close_at(chars: &Vec<char>, from: usize, to: usize, open: char, close: char) -> (r:
    Option<usize>)
    requires
        from <= to <= chars@.len(),
    ensures
        match r {
            Some(m) => from <= m < to && find_close(chars@, from as int, to as int, open, close, 0)
                == Some(m as int),
            None => find_close(chars@, from as int, to as int, open, close, 0) is None,
        },
{
    let mut i: usize = from;
    let mut count: i128 = 0;
    while i < to
        invariant
            from <= i <= to <= chars@.len(),
            -(i as i128) <= count <= i as i128,
            find_close(chars@, from as int, to as int, open, close, 0) == find_close(
                chars@,
                i as int,
                to as int,
                open,
                close,
                count as int,
            ),
        decreases to - i,
    {
        let c = chars[i];
        if c == close && count == 0 {
            return Some(i);
        } else if c == close {
            count = count - 1;
        } else if c == open {
            count = count + 1;
        }
        i = i + 1;
    }
    None
}

/// What the lexer's number state produces from position `i` with the
/// accumulated value and decimal-point flag: digits accumulate, at most
/// one decimal point is accepted, underscores are dropped, and the
/// number ends at the first other character. A literal whose value does
/// not fit the numeric type, or whose fraction is not zero, is a
/// lexical error, since the value model carries whole numbers.
pub open spec fn spec_number(chars: Seq<char>, i: int, to: int, value: i64, point: bool) -> Result<
    (i64, int),
    ExpectationModel,
>
    decreases to - i,
{
    if !(0 <= i && i <= to && to <= chars.len()) {
        arbitrary()
    } else if i >= to {
        Ok((value, i))
    } else {
        let c = chars[i];
        if is_digit_c(c) {
            let d = (c as u32 - 48) as i64;
            if point {
                if d != 0 {
                    Err(ExpectationModel { found: "a fractional number"@, expected: "a whole number"@ })
                } else {
                    spec_number(chars, i + 1, to, value, point)
                }
            } else {
                if value > (i64::MAX - d) / 10 {
                    Err(ExpectationModel { found: "a number out of range"@, expected: "a smaller number"@ })
                } else {
                    spec_number(chars, i + 1, to, (value * 10 + d) as i64, point)
                }
            }
        } else if c == '.' {
            if point {
                Err(ExpectationModel { found: "."@, expected: "a digit"@ })
            } else {
                spec_number(chars, i + 1, to, value, true)
            }
        } else if c as u32 == 95 {
            spec_number(chars, i + 1, to, value, point)
        } else {
            Ok((value, i))
        }
    }
}

/// What the lexer's identifier state produces from position `i`: the
/// accumulated name grows while letters, digits and underscores last.
pub open spec fn spec_ident(chars: Seq<char>, i: int, to: int, acc: Seq<char>) -> (Seq<char>, int)
    decreases to - i,
{
    if !(0 <= i && i <= to && to <= chars.len()) {
        arbitrary()
    } else if i >= to {
        (acc, i)
    } else if is_ident_c(chars[i]) {
        spec_ident(chars, i + 1, to, acc.push(chars[i]))
    } else {
        (acc, i)
    }
}

/// Lexes digits from position `i` as the number state does.
fn lex_number(chars: &Vec<char>, from: usize, to: usize) -> (r: Result<(i64, usize), TokeniseError>)
    requires
        from < to <= chars@.len(),
        is_digit_c(chars@[from as int]),
    ensures
        match r {
            Ok((v, p)) => from < p <= to && spec_number(chars@, from as int, to as int, 0, false)
                == Ok::<(i64, int), ExpectationModel>((v, p as int)),
            Err(e) => spec_number(chars@, from as int, to as int, 0, false) matches Err(m)
                && terr_model(e) == m,
        },
{
    let mut i: usize = from;
    let mut value: i64 = 0;
    let mut point: bool = false;
    while i < to
        invariant
            from < to <= chars@.len(),
            from <= i <= to,
            is_digit_c(chars@[from as int]),
            0 <= value,
            spec_number(chars@, from as int, to as int, 0, false) == spec_number(
                chars@,
                i as int,
                to as int,
                value,
                point,
            ),
        decreases to - i,
    {
        let c = chars[i];
        if is_digit(c) {
            let d = (c as u32 - 48) as i64;
            if point {
                if d != 0 {
                    return Err(TokeniseError::Expectation {
                        found: "a fractional number".to_owned(),
                        expected: "a whole number".to_owned(),
                    });
                }
            } else {
                if value > (i64::MAX - d) / 10 {
                    return Err(TokeniseError::Expectation {
                        found: "a number out of range".to_owned(),
                        expected: "a smaller number".to_owned(),
                    });
                }
                proof {
                    assert((i64::MAX - d) / 10 * 10 <= i64::MAX - d);
                    assert(value * 10 <= (i64::MAX - d) / 10 * 10) by (nonlinear_arith)
                        requires
                            value <= (i64::MAX - d) / 10,
                    ;
                }
                value = value * 10 + d;
            }
        } else if c == '.' {
            if point {
                return Err(TokeniseError::Expectation {
                    found: ".".to_owned(),
                    expected: "a digit".to_owned(),
                });
            }
            point = true;
        } else if c as u32 == 95 {
        } else {
            return Ok((value, i));
        }
        i = i + 1;
    }
    Ok((value, to))
}

/// Lexes an identifier from position `i` as the identifier state does.
fn lex_ident(chars: &Vec<char>, from: usize, to: usize) -> (r: (String, usize))
    requires
        from <= to <= chars@.len(),
    ensures
        from <= r.1 <= to,
        from < to && is_ident_c(chars@[from as int]) ==> from < r.1,
        spec_ident(chars@, from as int, to as int, Seq::empty()) == (r.0@, r.1 as int),
{
    let mut i: usize = from;
    let mut name = String::new();
    proof {
        assert(name@ =~= Seq::<char>::empty());
    }
    while i < to
        invariant
            from <= i <= to <= chars@.len(),
            spec_ident(chars@, from as int, to as int, Seq::empty()) == spec_ident(
                chars@,
                i as int,
                to as int,
                name@,
            ),
        decreases to - i,
    {
        let c = chars[i];
        if is_ident_char(c) {
            push_char(&mut name, c);
        } else {
            return (name, i);
        }
        i = i + 1;
    }
    (name, to)
}

/// What the lexer's access-chain states produce from position `j` with
/// the steps read so far: whitespace is skipped, a dot begins a further
/// name, a parenthesis begins an argument-list sub-lex and a bracket an
/// index sub-lex — each read to its matching closing character and
/// lexed recursively — and any other character ends the chain, which is
/// handed back together with the position of that character.
pub open spec fn spec_chain(
    chars: Seq<char>,
    j: int,
    to: int,
    depth: int,
    accs: Seq<AccessModel>,
) -> Result<(Seq<AccessModel>, int), ExpectationModel>
    decreases to - j, 0int,
{
    if !(0 <= j && j <= to && to <= chars.len()) {
        arbitrary()
    } else if j >= to {
        Ok((accs, j))
    } else {
        let c = chars[j];
        if is_ws_c(c) {
            spec_chain(chars, j + 1, to, depth, accs)
        } else if c == '.' {
            let (name, p) = spec_ident(chars, j + 1, to, Seq::empty());
            let p2 = if p < j + 1 || p > to {
                j + 1
            } else {
                p
            };
            spec_chain(chars, p2, to, depth, accs.push(AccessModel::Name(name)))
        } else if c == '(' || c == '[' {
            let close = if c == '(' {
                ')'
            } else {
                ']'
            };
            if depth <= 0 {
                Err(nesting_error())
            } else {
                match find_close(chars, j + 1, to, c, close, 0) {
                    None => Err(ExpectationModel { found: "EOF"@, expected: ")"@ }),
                    Some(m) => if !(j < m < to) {
                        arbitrary()
                    } else {
                        match lex_spec(chars, j + 1, m, depth - 1, Seq::empty()) {
                            Err(e) => Err(e),
                            Ok(ts) => {
                                let step = if c == '(' {
                                    AccessModel::Call(ts)
                                } else {
                                    AccessModel::Index(ts)
                                };
                                spec_chain(chars, m + 1, to, depth, accs.push(step))
                            },
                        }
                    },
                }
            }
        } else {
            Ok((accs, j))
        }
    }
}

/// What the lexer produces from the characters `i..to` at the given
/// remaining nesting depth, appending to the tokens read so far.
pub open spec fn lex_spec(
    chars: Seq<char>,
    i: int,
    to: int,
    depth: int,
    acc: Seq<TokenModel>,
) -> Result<Seq<TokenModel>, ExpectationModel>
    decreases to - i, 1int,
{
    if !(0 <= i && i <= to && to <= chars.len()) {
        arbitrary()
    } else if i >= to {
        Ok(acc)
    } else {
        let c = chars[i];
        if is_ws_c(c) {
            lex_spec(chars, i + 1, to, depth, acc)
        } else if is_digit_c(c) {
            match spec_number(chars, i, to, 0, false) {
                Err(e) => Err(e),
                Ok((v, p)) => {
                    let p2 = if p <= i || p > to {
                        i + 1
                    } else {
                        p
                    };
                    lex_spec(chars, p2, to, depth, acc.push(TokenModel::Number(v)))
                },
            }
        } else if is_letter_c(c) {
            let (name, j) = spec_ident(chars, i, to, Seq::empty());
            let j2 = if j <= i || j > to {
                i + 1
            } else {
                j
            };
            match spec_chain(chars, j2, to, depth, seq![AccessModel::Name(name)]) {
                Err(e) => Err(e),
                Ok((accs, p)) => {
                    let p2 = if p <= i || p > to {
                        to
                    } else {
                        p
                    };
                    let tok = if accs.len() > 0 && accs[0] == AccessModel::Name("return"@) {
                        TokenModel::Operator(Operator::Return)
                    } else {
                        TokenModel::Access(accs)
                    };
                    lex_spec(chars, p2, to, depth, acc.push(tok))
                },
            }
        } else if c == ',' {
            lex_spec(chars, i + 1, to, depth, acc.push(TokenModel::Comma))
        } else if c == '*' {
            lex_spec(chars, i + 1, to, depth, acc.push(TokenModel::Operator(Operator::Multiply)))
        } else if c == '/' {
            lex_spec(chars, i + 1, to, depth, acc.push(TokenModel::Operator(Operator::Divide)))
        } else if c == '+' {
            lex_spec(chars, i + 1, to, depth, acc.push(TokenModel::Operator(Operator::Add)))
        } else if c == ':' {
            lex_spec(chars, i + 1, to, depth, acc.push(TokenModel::Operator(Operator::Colon)))
        } else if c == '-' {
            lex_spec(chars, i + 1, to, depth, acc.push(TokenModel::Operator(Operator::Subtract)))
        } else if c == '!' {
            lex_spec(chars, i + 1, to, depth, acc.push(TokenModel::Operator(Operator::Not)))
        } else if c == ';' {
            lex_spec(chars, i + 1, to, depth, acc.push(TokenModel::Semicolon))
        } else if c == '(' {
            lex_spec(chars, i + 1, to, depth, acc.push(TokenModel::OpenBracket))
        } else if c == ')' {
            lex_spec(chars, i + 1, to, depth, acc.push(TokenModel::CloseBracket))
        } else if c == '?' {
            if i + 1 < to && chars[i + 1] == '?' {
                lex_spec(
                    chars,
                    i + 2,
                    to,
                    depth,
                    acc.push(TokenModel::Operator(Operator::NullishCoalescing)),
                )
            } else {
                lex_spec(
                    chars,
                    i + 1,
                    to,
                    depth,
                    acc.push(TokenModel::Operator(Operator::Conditional)),
                )
            }
        } else if c == '=' {
            if i + 1 < to && chars[i + 1] == '=' {
                lex_spec(
                    chars,
                    i + 2,
                    to,
                    depth,
                    acc.push(TokenModel::Operator(Operator::Equality)),
                )
            } else {
                lex_spec(
                    chars,
                    i + 1,
                    to,
                    depth,
                    acc.push(TokenModel::Operator(Operator::Assignment)),
                )
            }
        } else if c == '{' {
            if depth <= 0 {
                Err(nesting_error())
            } else {
                match find_close(chars, i + 1, to, '{', '}', 0) {
                    None => Err(ExpectationModel { found: "EOF"@, expected: "}"@ }),
                    Some(m) => if !(i < m < to) {
                        arbitrary()
                    } else {
                        match lex_spec(chars, i + 1, m, depth - 1, Seq::empty()) {
                            Err(e) => Err(e),
                            Ok(ts) => match blockise_spec(ts) {
                                Err(_) => Err(
                                    ExpectationModel {
                                        found: "an invalid block"@,
                                        expected: "statements"@,
                                    },
                                ),
                                Ok(bm) => lex_spec(
                                    chars,
                                    m + 1,
                                    to,
                                    depth,
                                    acc.push(TokenModel::Block(bm)),
                                ),
                            },
                        }
                    },
                }
            }
        } else {
            Err(ExpectationModel { found: seq![c], expected: "anything else"@ })
        }
    }
}

/// Lexes an access chain from position `start`, continuing the steps
/// accumulated in `accs`.
fn lex_chain(chars: &Vec<char>, start: usize, to: usize, depth: usize, accs: Vec<Access>) -> (r:
    Result<(Vec<Access>, usize), TokeniseError>)
    requires
        start <= to <= chars@.len(),
    ensures
        ({
            let sp = spec_chain(
                chars@,
                start as int,
                to as int,
                depth as int,
                accs_model(accs, accs@.len() as int),
            );
            match r {
                Ok((res, p)) => start <= p <= to && sp == Ok::<(Seq<AccessModel>, int), ExpectationModel>((
                    accs_model(res, res@.len() as int),
                    p as int,
                )),
                Err(e) => sp matches Err(m) && terr_model(e) == m,
            }
        }),
    decreases to - start, 0int,
{
    let ghost m0 = accs_model(accs, accs@.len() as int);
    let mut j: usize = start;
    let mut cur = accs;
    while j < to
        invariant
            start <= j <= to <= chars@.len(),
            m0 == accs_model(accs, accs@.len() as int),
            spec_chain(chars@, start as int, to as int, depth as int, m0) == spec_chain(
                chars@,
                j as int,
                to as int,
                depth as int,
                accs_model(cur, cur@.len() as int),
            ),
        decreases to - j,
    {
        let c = chars[j];
        if is_ws(c) {
            j = j + 1;
        } else if c == '.' {
            let (name, p) = lex_ident(chars, j + 1, to);
            let ghost snap = cur;
            cur.push(Access::Name(name));
            proof {
                lemma_accs_model(cur, cur@.len() as int);
                lemma_accs_model(snap, snap@.len() as int);
                assert(accs_model(cur, cur@.len() as int) =~= accs_model(
                    snap,
                    snap@.len() as int,
                ).push(acc_model(cur@[cur@.len() - 1])));
            }
            j = p;
        } else if c == '(' || c == '[' {
            let close = if c == '(' {
                ')'
            } else {
                ']'
            };
            if depth == 0 {
                return Err(TokeniseError::Expectation {
                    found: "nesting deeper than the supported depth".to_owned(),
                    expected: "shallower nesting".to_owned(),
                });
            }
            match find_close_at(chars, j + 1, to, c, close) {
                None => {
                    return Err(TokeniseError::Expectation {
                        found: "EOF".to_owned(),
                        expected: ")".to_owned(),
                    });
                },
                Some(m) => {
                    match lex_range(chars, j + 1, m, depth - 1) {
                        Err(e) => {
                            return Err(e);
                        },
                        Ok(ts) => {
                            let ghost snap = cur;
                            proof {
                                lemma_toks_model(ts, ts@.len() as int);
                            }
                            let step = if c == '(' {
                                Access::Call(ts)
                            } else {
                                Access::Index(ts)
                            };
                            cur.push(step);
                            proof {
                                lemma_accs_model(cur, cur@.len() as int);
                                lemma_accs_model(snap, snap@.len() as int);
                                assert(accs_model(cur, cur@.len() as int) =~= accs_model(
                                    snap,
                                    snap@.len() as int,
                                ).push(acc_model(cur@[cur@.len() - 1])));
                            }
                            j = m + 1;
                        },
                    }
                },
            }
        } else {
            return Ok((cur, j));
        }
    }
    Ok((cur, j))
}

/// Lexes the characters `from..to` into a token sequence at the given
/// remaining nesting depth.
fn lex_range(chars: &Vec<char>, from: usize, to: usize, depth: usize) -> (r: Result<
    Vec<Token>,
    TokeniseError,
>)
    requires
        from <= to <= chars@.len(),
    ensures
        ({
            let sp = lex_spec(chars@, from as int, to as int, depth as int, Seq::empty());
            match r {
                Ok(v) => sp == Ok::<Seq<TokenModel>, ExpectationModel>(
                    toks_model(v, v@.len() as int),
                ),
                Err(e) => sp matches Err(m) && terr_model(e) == m,
            }
        }),
    decreases to - from, 1int,
{
    let mut i: usize = from;
    let mut out: Vec<Token> = Vec::new();
    while i < to
        invariant
            from <= i <= to <= chars@.len(),
            lex_spec(chars@, from as int, to as int, depth as int, Seq::empty()) == lex_spec(
                chars@,
                i as int,
                to as int,
                depth as int,
                toks_model(out, out@.len() as int),
            ),
        decreases to - i,
    {
        let ghost snap = out;
        let c = chars[i];
        if is_ws(c) {
            i = i + 1;
        } else if is_digit(c) {
            match lex_number(chars, i, to) {
                Err(e) => {
                    return Err(e);
                },
                Ok((v, p)) => {
                    out.push(Token::Number(v));
                    i = p;
                },
            }
        } else if is_letter(c) {
            let (name, j) = lex_ident(chars, i, to);
            let mut first: Vec<Access> = Vec::new();
            first.push(Access::Name(name));
            proof {
                lemma_accs_model(first, 1);
                assert(accs_model(first, 1) =~= seq![acc_model(first@[0])]);
            }
            match lex_chain(chars, j, to, depth, first) {
                Err(e) => {
                    return Err(e);
                },
                Ok((accs, p)) => {
                    proof {
                        lemma_accs_model(accs, accs@.len() as int);
                    }
                    let is_return = if accs.len() > 0 {
                        match &accs[0] {
                            Access::Name(s) => {
                                let ret = String::from_str("return");
                                s.eq(&ret)
                            },
                            _ => false,
                        }
                    } else {
                        false
                    };
                    if is_return {
                        out.push(Token::Operator(Operator::Return));
                    } else {
                        out.push(Token::Access(accs));
                    }
                    i = p;
                },
            }
        } else if c == ',' {
            out.push(Token::Comma);
            i = i + 1;
        } else if c == '*' {
            out.push(Token::Operator(Operator::Multiply));
            i = i + 1;
        } else if c == '/' {
            out.push(Token::Operator(Operator::Divide));
            i = i + 1;
        } else if c == '+' {
            out.push(Token::Operator(Operator::Add));
            i = i + 1;
        } else if c == ':' {
            out.push(Token::Operator(Operator::Colon));
            i = i + 1;
        } else if c == '-' {
            out.push(Token::Operator(Operator::Subtract));
            i = i + 1;
        } else if c == '!' {
            out.push(Token::Operator(Operator::Not));
            i = i + 1;
        } else if c == ';' {
            out.push(Token::Semicolon);
            i = i + 1;
        } else if c == '(' {
            out.push(Token::OpenBracket);
            i = i + 1;
        } else if c == ')' {
            out.push(Token::CloseBracket);
            i = i + 1;
        } else if c == '?' {
            if i + 1 < to && chars[i + 1] == '?' {
                out.push(Token::Operator(Operator::NullishCoalescing));
                i = i + 2;
            } else {
                out.push(Token::Operator(Operator::Conditional));
                i = i + 1;
            }
        } else if c == '=' {
            if i + 1 < to && chars[i + 1] == '=' {
                out.push(Token::Operator(Operator::Equality));
                i = i + 2;
            } else {
                out.push(Token::Operator(Operator::Assignment));
                i = i + 1;
            }
        } else if c == '{' {
            if depth == 0 {
                return Err(TokeniseError::Expectation {
                    found: "nesting deeper than the supported depth".to_owned(),
                    expected: "shallower nesting".to_owned(),
                });
            }
            match find_close_at(chars, i + 1, to, '{', '}') {
                None => {
                    return Err(TokeniseError::Expectation {
                        found: "EOF".to_owned(),
                        expected: "}".to_owned(),
                    });
                },
                Some(m) => {
                    match lex_range(chars, i + 1, m, depth - 1) {
                        Err(e) => {
                            return Err(e);
                        },
                        Ok(ts) => {
                            proof {
                                lemma_toks_model(ts, ts@.len() as int);
                            }
                            match blockise(ts) {
                                Err(_) => {
                                    return Err(TokeniseError::Expectation {
                                        found: "an invalid block".to_owned(),
                                        expected: "statements".to_owned(),
                                    });
                                },
                                Ok(b) => {
                                    out.push(Token::Block(b));
                                    i = m + 1;
                                },
                            }
                        },
                    }
                },
            }
        } else {
            return Err(TokeniseError::Expectation {
                found: char_string(c),
                expected: "anything else".to_owned(),
            });
        }
        proof {
            if out@.len() > snap@.len() {
                lemma_toks_model(out, out@.len() as int);
                lemma_toks_model(snap, snap@.len() as int);
                assert(toks_model(out, out@.len() as int) =~= toks_model(
                    snap,
                    snap@.len() as int,
                ).push(tmodel(out@[out@.len() - 1])));
            }
        }
    }
    Ok(out)
}

/// What lexing a whole source text produces.
pub open spec fn tokenise_spec(s: Seq<char>) -> Result<Seq<TokenModel>, ExpectationModel> {
    lex_spec(s, 0, s.len() as int, NESTING_LIMIT as int, Seq::empty())
}

/// Turns source text into a token sequence, or fails with a lexical
/// error naming the unexpected character and what was expected instead.
pub fn tokenise(input: &str) -> (r: Result<Vec<Token>, TokeniseError>)
    ensures
        match r {
            Ok(v) => tokenise_spec(input@) matches Ok(m) && toks_model(v, v@.len() as int) == m,
            Err(e) => tokenise_spec(input@) matches Err(m) && terr_model(e) == m,
        },
{
    let chars = str_chars(input);
    lex_range(&chars, 0, chars.len(), NESTING_LIMIT)
}

} // verus!
