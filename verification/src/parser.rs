//! The parser.
//!
//! Expressions are specified by pure functions over the input characters:
//! [`parse_value_spec`] gives the expression starting at a position and the
//! position just after it, [`parse_all_spec`] the whole sequence of
//! expressions.  Both are defined through fuelled recursions
//! ([`parse_value_fuel`] and friends) whose fuel is irrelevant once large
//! enough; two lemmas below make that precise.  The executable parser is
//! proved to produce exactly the specified expressions.

use vstd::prelude::*;

use crate::data::{vals_view, List, ParseError, TokV, Token, Val, Value};
use crate::lexer::{lemma_next_token_bounds, next_token, skip_ws, Tokenizer};

verus! {

/// The expression `(quote v)`.
pub open spec fn quoted(v: Val) -> Val {
    Val::List(seq![Val::Symbol("quote"@), v])
}

/// One expression starting at `i`, with `fuel` bounding the recursion
/// depth; `None` means the fuel ran out.
pub open spec fn parse_value_fuel(s: Seq<char>, i: int, fuel: nat) -> Option<
    (Result<Val, ParseError>, int),
>
    decreases fuel,
{
    if fuel == 0 {
        None
    } else {
        let (t, j) = next_token(s, i);
        match t {
            TokV::Lparen => match parse_list_fuel(s, j, (fuel - 1) as nat) {
                None => None,
                Some((Ok(elems), k)) => Some((Ok(Val::List(elems)), k)),
                Some((Err(e), k)) => Some((Err(e), k)),
            },
            TokV::Rparen => Some((Err(ParseError::UnexpectedRparen), j)),
            TokV::Quote => match parse_value_fuel(s, j, (fuel - 1) as nat) {
                None => None,
                Some((Ok(v), k)) => Some((Ok(quoted(v)), k)),
                Some((Err(ParseError::EndOfStream), k)) => Some((Err(ParseError::NoQuoteArg), k)),
                Some((Err(e), k)) => Some((Err(e), k)),
            },
            TokV::Number(n) => Some((Ok(Val::Num(n as i64)), j)),
            TokV::Ident(t) => Some((Ok(Val::Symbol(t)), j)),
            TokV::Str(t) => Some((Ok(Val::Str(t)), j)),
            TokV::Error(e) => Some((Err(e), j)),
            TokV::End => Some((Err(ParseError::EndOfStream), j)),
        }
    }
}

/// The elements of a list whose opening parenthesis stood before `i`, up
/// to and including the closing parenthesis.  An end of input before the
/// closing parenthesis is an unclosed list, reported at `i` itself.
pub open spec fn parse_list_fuel(s: Seq<char>, i: int, fuel: nat) -> Option<
    (Result<Seq<Val>, ParseError>, int),
>
    decreases fuel,
{
    if fuel == 0 {
        None
    } else {
        let (t, j) = next_token(s, i);
        match t {
            TokV::Rparen => Some((Ok(Seq::empty()), j)),
            TokV::End => Some((Err(ParseError::UnclosedList), i)),
            _ => match parse_value_fuel(s, i, (fuel - 1) as nat) {
                None => None,
                Some((Err(e), k)) => Some((Err(e), k)),
                Some((Ok(v), k)) => match parse_list_fuel(s, k, (fuel - 1) as nat) {
                    None => None,
                    Some((Ok(rest), m)) => Some((Ok(seq![v] + rest), m)),
                    Some((Err(e), m)) => Some((Err(e), m)),
                },
            },
        }
    }
}

/// All expressions from `i` to the end of the input.  The end of the
/// stream terminates the sequence normally; any other error aborts it.
pub open spec fn parse_all_fuel(s: Seq<char>, i: int, fuel: nat) -> Option<
    (Result<Seq<Val>, ParseError>, int),
>
    decreases fuel,
{
    if fuel == 0 {
        None
    } else {
        match parse_value_fuel(s, i, (fuel - 1) as nat) {
            None => None,
            Some((Err(ParseError::EndOfStream), k)) => Some((Ok(Seq::empty()), k)),
            Some((Err(e), k)) => Some((Err(e), k)),
            Some((Ok(v), k)) => match parse_all_fuel(s, k, (fuel - 1) as nat) {
                None => None,
                Some((Ok(rest), m)) => Some((Ok(seq![v] + rest), m)),
                Some((Err(e), m)) => Some((Err(e), m)),
            },
        }
    }
}

/// Fuel that always suffices from position `i` (see
/// [`lemma_parse_total`]).
pub open spec fn enough_fuel(s: Seq<char>, i: int) -> nat {
    (2 * (s.len() - i) + 2) as nat
}

/// One expression starting at `i`, and the position just after it.
pub open spec fn parse_value_spec(s: Seq<char>, i: int) -> (Result<Val, ParseError>, int) {
    parse_value_fuel(s, i, enough_fuel(s, i))->Some_0
}

/// The elements of a list continuing at `i`, and the position after it.
pub open spec fn parse_list_spec(s: Seq<char>, i: int) -> (Result<Seq<Val>, ParseError>, int) {
    parse_list_fuel(s, i, enough_fuel(s, i))->Some_0
}

/// All expressions from `i`, and the position after them.
pub open spec fn parse_all_spec(s: Seq<char>, i: int) -> (Result<Seq<Val>, ParseError>, int) {
    parse_all_fuel(s, i, enough_fuel(s, i))->Some_0
}

/// Once the fuel suffices, more fuel does not change the outcome.
pub proof fn lemma_parse_value_mono(s: Seq<char>, i: int, f: nat, g: nat)
    requires
        f <= g,
        parse_value_fuel(s, i, f) is Some,
    ensures
        parse_value_fuel(s, i, g) == parse_value_fuel(s, i, f),
    decreases f,
{
    let (t, j) = next_token(s, i);
    match t {
        TokV::Lparen => {
            lemma_parse_list_mono(s, j, (f - 1) as nat, (g - 1) as nat);
        },
        TokV::Quote => {
            lemma_parse_value_mono(s, j, (f - 1) as nat, (g - 1) as nat);
        },
        _ => {},
    }
}

/// Once the fuel suffices, more fuel does not change the outcome.
pub proof fn lemma_parse_list_mono(s: Seq<char>, i: int, f: nat, g: nat)
    requires
        f <= g,
        parse_list_fuel(s, i, f) is Some,
    ensures
        parse_list_fuel(s, i, g) == parse_list_fuel(s, i, f),
    decreases f,
{
    let (t, j) = next_token(s, i);
    match t {
        TokV::Rparen => {},
        TokV::End => {},
        _ => {
            lemma_parse_value_mono(s, i, (f - 1) as nat, (g - 1) as nat);
            match parse_value_fuel(s, i, (f - 1) as nat) {
                Some((Ok(v), k)) => {
                    lemma_parse_list_mono(s, k, (f - 1) as nat, (g - 1) as nat);
                },
                _ => {},
            }
        },
    }
}

/// Once the fuel suffices, more fuel does not change the outcome.
pub proof fn lemma_parse_all_mono(s: Seq<char>, i: int, f: nat, g: nat)
    requires
        f <= g,
        parse_all_fuel(s, i, f) is Some,
    ensures
        parse_all_fuel(s, i, g) == parse_all_fuel(s, i, f),
    decreases f,
{
    lemma_parse_value_mono(s, i, (f - 1) as nat, (g - 1) as nat);
    match parse_value_fuel(s, i, (f - 1) as nat) {
        Some((Ok(v), k)) => {
            lemma_parse_all_mono(s, k, (f - 1) as nat, (g - 1) as nat);
        },
        _ => {},
    }
}

/// A parse stays within the input, and makes progress whenever the first
/// token is not the end of the stream.
pub proof fn lemma_parse_value_pos(s: Seq<char>, i: int, f: nat)
    requires
        0 <= i <= s.len(),
        parse_value_fuel(s, i, f) is Some,
    ensures
        i <= parse_value_fuel(s, i, f)->Some_0.1 <= s.len(),
        next_token(s, i).0 != TokV::End ==> i < parse_value_fuel(s, i, f)->Some_0.1,
    decreases f,
{
    let (t, j) = next_token(s, i);
    lemma_next_token_bounds(s, i);
    match t {
        TokV::Lparen => {
            lemma_parse_list_pos(s, j, (f - 1) as nat);
        },
        TokV::Quote => {
            lemma_parse_value_pos(s, j, (f - 1) as nat);
        },
        _ => {},
    }
}

/// A list parse stays within the input.
pub proof fn lemma_parse_list_pos(s: Seq<char>, i: int, f: nat)
    requires
        0 <= i <= s.len(),
        parse_list_fuel(s, i, f) is Some,
    ensures
        i <= parse_list_fuel(s, i, f)->Some_0.1 <= s.len(),
    decreases f,
{
    let (t, j) = next_token(s, i);
    lemma_next_token_bounds(s, i);
    match t {
        TokV::Rparen => {},
        TokV::End => {},
        _ => {
            lemma_parse_value_pos(s, i, (f - 1) as nat);
            match parse_value_fuel(s, i, (f - 1) as nat) {
                Some((Ok(v), k)) => {
                    lemma_parse_list_pos(s, k, (f - 1) as nat);
                },
                _ => {},
            }
        },
    }
}

/// With fuel `2 * (remaining characters) + 1` a value parse completes, and
/// with one unit more a list or whole-input parse completes: the fuelled
/// recursions are total at [`enough_fuel`].
pub proof fn lemma_parse_total(s: Seq<char>, i: int, f: nat)
    requires
        0 <= i <= s.len(),
    ensures
        f >= 2 * (s.len() - i) + 1 ==> parse_value_fuel(s, i, f) is Some,
        f >= 2 * (s.len() - i) + 2 ==> parse_list_fuel(s, i, f) is Some,
        f >= 2 * (s.len() - i) + 2 ==> parse_all_fuel(s, i, f) is Some,
    decreases f,
{
    if f >= 2 * (s.len() - i) + 1 {
        let (t, j) = next_token(s, i);
        lemma_next_token_bounds(s, i);
        match t {
            TokV::Lparen => {
                lemma_parse_total(s, j, (f - 1) as nat);
            },
            TokV::Quote => {
                lemma_parse_total(s, j, (f - 1) as nat);
            },
            _ => {},
        }
    }
    if f >= 2 * (s.len() - i) + 2 {
        let (t, j) = next_token(s, i);
        lemma_next_token_bounds(s, i);
        lemma_parse_total(s, i, (f - 1) as nat);
        match t {
            TokV::Rparen => {},
            TokV::End => {},
            _ => {
                match parse_value_fuel(s, i, (f - 1) as nat) {
                    Some((Ok(v), k)) => {
                        lemma_parse_value_pos(s, i, (f - 1) as nat);
                        lemma_parse_total(s, k, (f - 1) as nat);
                    },
                    _ => {},
                }
            },
        }
        match parse_value_fuel(s, i, (f - 1) as nat) {
            Some((Ok(v), k)) => {
                lemma_parse_value_pos(s, i, (f - 1) as nat);
                lemma_parse_total(s, k, (f - 1) as nat);
            },
            _ => {},
        }
    }
}

/// An input that is exactly one self-delimiting token parses as the one
/// expression that token denotes.
pub proof fn lemma_parse_single(s: Seq<char>, v: Val)
    requires
        s.len() >= 1,
        next_token(s, 0).1 == s.len() as int,
        match next_token(s, 0).0 {
            TokV::Number(n) => v == Val::Num(n as i64),
            TokV::Ident(t) => v == Val::Symbol(t),
            TokV::Str(t) => v == Val::Str(t),
            _ => false,
        },
    ensures
        parse_all_spec(s, 0).0 == Ok::<Seq<Val>, ParseError>(seq![v]),
        parse_all_fuel(s, 0, enough_fuel(s, 0)) is Some,
{
    let f = enough_fuel(s, 0);
    lemma_parse_total(s, 0, f);
    assert(f >= 4);
    let len = s.len() as int;
    assert(parse_value_fuel(s, 0, (f - 1) as nat) == Some(
        (Ok::<Val, ParseError>(v), len),
    ));
    assert(skip_ws(s, len) == len);
    assert(next_token(s, len) == (TokV::End, len));
    assert(parse_value_fuel(s, len, (f - 2) as nat) == Some(
        (Err::<Val, ParseError>(ParseError::EndOfStream), len),
    ));
    assert(parse_all_fuel(s, len, (f - 1) as nat) == Some(
        (Ok::<Seq<Val>, ParseError>(Seq::empty()), len),
    ));
    assert(parse_all_fuel(s, 0, f) == Some(
        (Ok::<Seq<Val>, ParseError>(seq![v] + Seq::<Val>::empty()), len),
    ));
    assert(seq![v] + Seq::<Val>::empty() =~= seq![v]);
}

/// The result of an executable parse step matches its model.
pub open spec fn pres_matches(r: Result<Value, ParseError>, m: Result<Val, ParseError>) -> bool {
    match (r, m) {
        (Ok(v), Ok(mv)) => v@ == mv,
        (Err(e1), Err(e2)) => e1 == e2,
        _ => false,
    }
}

/// The parser: one token of lookahead over a tokenizer.  The ghost `start`
/// marks the position where the lookahead token begins.
pub struct Parser {
    pub cur_tok: Token,
    pub input: Tokenizer,
    pub start: Ghost<int>,
}

impl Parser {
    /// The lookahead token is the token starting at `start`, and the
    /// tokenizer stands just after it.
    pub open spec fn wf(&self) -> bool {
        &&& self.input.wf()
        &&& 0 <= self.start@ <= self.input.chars@.len()
        &&& next_token(self.input.chars@, self.start@) == (self.cur_tok@, self.input.pos as int)
    }

    /// A parser over the characters of `text`.
    pub fn new(text: &str) -> (r: Parser)
        ensures
            r.wf(),
            r.input.chars@ == text@,
            r.start@ == 0,
    {
        let mut tokens = Tokenizer::new(text);
        let cur = tokens.next();
        let r = Parser { cur_tok: cur, input: tokens, start: Ghost(0) };
        r
    }

    /// Consumes the current token and pulls the next one.
    fn bump(&mut self) -> (t: Token)
        requires
            old(self).wf(),
        ensures
            final(self).wf(),
            t == old(self).cur_tok,
            final(self).input.chars == old(self).input.chars,
            final(self).start@ == old(self).input.pos as int,
    {
        let ghost p0 = self.input.pos as int;
        let mut t = self.input.next();
        core::mem::swap(&mut self.cur_tok, &mut t);
        self.start = Ghost(p0);
        proof {
            lemma_next_token_bounds(self.input.chars@, p0);
        }
        t
    }

    /// Parses one expression, per [`parse_value_spec`].
    pub fn parse_value(&mut self) -> (r: Result<Value, ParseError>)
        requires
            old(self).wf(),
        ensures
            final(self).wf(),
            final(self).input.chars == old(self).input.chars,
            pres_matches(r, parse_value_spec(old(self).input.chars@, old(self).start@).0),
            final(self).start@ == parse_value_spec(old(self).input.chars@, old(self).start@).1,
        decreases self.input.chars@.len() - self.start@, 0int,
    {
        let ghost s = self.input.chars@;
        let ghost i0 = self.start@;
        proof {
            lemma_parse_total(s, i0, enough_fuel(s, i0));
            lemma_next_token_bounds(s, i0);
        }
        let t = self.bump();
        match t {
            Token::Lparen => {
                proof {
                    let j = self.start@;
                    lemma_parse_total(s, j, enough_fuel(s, j));
                    lemma_parse_list_mono(
                        s,
                        j,
                        enough_fuel(s, j),
                        (enough_fuel(s, i0) - 1) as nat,
                    );
                }
                self.parse_list()
            },
            Token::Rparen => Err(ParseError::UnexpectedRparen),
            Token::Quote => {
                proof {
                    let j = self.start@;
                    lemma_parse_total(s, j, enough_fuel(s, j));
                    lemma_parse_value_mono(
                        s,
                        j,
                        enough_fuel(s, j),
                        (enough_fuel(s, i0) - 1) as nat,
                    );
                }
                match self.parse_value() {
                    Ok(v) => Ok(v.quote()),
                    Err(ParseError::EndOfStream) => Err(ParseError::NoQuoteArg),
                    Err(e) => Err(e),
                }
            },
            Token::Number(n) => Ok(Value::Number(n)),
            Token::Ident(v) => Ok(Value::Symbol(v)),
            Token::Str(v) => Ok(Value::Str(v)),
            Token::Error(e) => Err(e),
            Token::End => Err(ParseError::EndOfStream),
        }
    }

    /// Parses the elements of a list up to the closing parenthesis, per
    /// [`parse_list_spec`].
    #[verifier::loop_isolation(false)]
    fn parse_list(&mut self) -> (r: Result<Value, ParseError>)
        requires
            old(self).wf(),
        ensures
            final(self).wf(),
            final(self).input.chars == old(self).input.chars,
            match (r, parse_list_spec(old(self).input.chars@, old(self).start@).0) {
                (Ok(v), Ok(elems)) => v@ == Val::List(elems),
                (Err(e1), Err(e2)) => e1 == e2,
                _ => false,
            },
            final(self).start@ == parse_list_spec(old(self).input.chars@, old(self).start@).1,
        decreases self.input.chars@.len() - self.start@, 1int,
    {
        let ghost s = self.input.chars@;
        let ghost i0 = self.start@;
        let mut items: Vec<Value> = Vec::new();
        loop
            invariant
                self.wf(),
                self.input.chars == old(self).input.chars,
                self.input.chars@ == s,
                i0 <= self.start@,
                parse_list_spec(s, i0).1 == parse_list_spec(s, self.start@).1,
                match (parse_list_spec(s, i0).0, parse_list_spec(s, self.start@).0) {
                    (Ok(e0), Ok(e1)) => e0 == vals_view(items@) + e1,
                    (Err(a), Err(b)) => a == b,
                    _ => false,
                },
            decreases s.len() - self.start@,
        {
            let ghost ic = self.start@;
            proof {
                lemma_parse_total(s, ic, enough_fuel(s, ic));
                lemma_next_token_bounds(s, ic);
            }
            match &self.cur_tok {
                Token::Rparen => {
                    let _ = self.bump();
                    let r = List::from_de_iter(items);
                    proof {
                        assert(vals_view(items@) + Seq::<Val>::empty() =~= vals_view(items@));
                    }
                    return Ok(Value::List(r));
                },
                Token::End => {
                    return Err(ParseError::UnclosedList);
                },
                _ => {
                    proof {
                        lemma_parse_value_mono(
                            s,
                            ic,
                            (enough_fuel(s, ic) - 1) as nat,
                            enough_fuel(s, ic),
                        );
                        lemma_parse_value_pos(s, ic, enough_fuel(s, ic));
                    }
                    match self.parse_value() {
                        Ok(v) => {
                            let ghost k = self.start@;
                            proof {
                                lemma_parse_total(s, k, enough_fuel(s, k));
                                lemma_parse_list_mono(
                                    s,
                                    k,
                                    enough_fuel(s, k),
                                    (enough_fuel(s, ic) - 1) as nat,
                                );
                            }
                            let ghost pre = items@;
                            items.push(v);
                            proof {
                                assert(items@ =~= pre + seq![v]);
                                crate::data::lemma_vals_view_push(pre, v);
                                match parse_list_spec(s, k).0 {
                                    Ok(e1) => {
                                        assert(vals_view(pre) + (seq![v@] + e1) =~= vals_view(
                                            items@,
                                        ) + e1);
                                    },
                                    Err(_) => {},
                                }
                            }
                        },
                        Err(e) => {
                            return Err(e);
                        },
                    }
                },
            }
        }
    }

    /// Parses every expression in the input, per [`parse_all_spec`]: the
    /// end of the stream terminates the sequence normally, and any other
    /// error aborts the parse.
    #[verifier::loop_isolation(false)]
    pub fn parse(self) -> (r: Result<Vec<Value>, ParseError>)
        requires
            self.wf(),
        ensures
            match (r, parse_all_spec(self.input.chars@, self.start@).0) {
                (Ok(vs), Ok(ms)) => vals_view(vs@) == ms,
                (Err(e1), Err(e2)) => e1 == e2,
                _ => false,
            },
    {
        let ghost s = self.input.chars@;
        let ghost i0 = self.start@;
        let mut p = self;
        let mut out: Vec<Value> = Vec::new();
        loop
            invariant
                p.wf(),
                p.input.chars == self.input.chars,
                p.input.chars@ == s,
                i0 <= p.start@,
                parse_all_spec(s, i0).1 == parse_all_spec(s, p.start@).1,
                match (parse_all_spec(s, i0).0, parse_all_spec(s, p.start@).0) {
                    (Ok(e0), Ok(e1)) => e0 == vals_view(out@) + e1,
                    (Err(a), Err(b)) => a == b,
                    _ => false,
                },
            decreases s.len() - p.start@,
        {
            let ghost ic = p.start@;
            proof {
                lemma_parse_total(s, ic, enough_fuel(s, ic));
                lemma_next_token_bounds(s, ic);
                lemma_parse_value_mono(
                    s,
                    ic,
                    (enough_fuel(s, ic) - 1) as nat,
                    enough_fuel(s, ic),
                );
                lemma_parse_value_pos(s, ic, enough_fuel(s, ic));
            }
            match p.parse_value() {
                Ok(v) => {
                    let ghost k = p.start@;
                    proof {
                        lemma_parse_total(s, k, enough_fuel(s, k));
                        lemma_parse_all_mono(
                            s,
                            k,
                            enough_fuel(s, k),
                            (enough_fuel(s, ic) - 1) as nat,
                        );
                    }
                    let ghost pre = out@;
                    out.push(v);
                    proof {
                        assert(out@ =~= pre + seq![v]);
                        crate::data::lemma_vals_view_push(pre, v);
                        match parse_all_spec(s, k).0 {
                            Ok(e1) => {
                                assert(vals_view(pre) + (seq![v@] + e1) =~= vals_view(out@) + e1);
                            },
                            Err(_) => {},
                        }
                    }
                },
                Err(e) => {
                    if matches!(e, ParseError::EndOfStream) {
                        proof {
                            assert(vals_view(out@) + Seq::<Val>::empty() =~= vals_view(out@));
                        }
                        return Ok(out);
                    }
                    return Err(e);
                },
            }
        }
    }
}

} // verus!
