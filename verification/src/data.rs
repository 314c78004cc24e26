//! Core data types: tokens, runtime values, cons lists, and the two error
//! taxonomies, together with their ghost models.
//!
//! Every executable type has a mathematical model: text becomes
//! `Seq<char>` and a cons list becomes the `Seq<Val>` of the models of its
//! elements.  All contracts in the crate are stated over these models.

use vstd::prelude::*;

use crate::builtins::Builtin;
use crate::lambda::{Lambda, LambdaV};

verus! {

/// The runtime type of a value, as reported by `typeof` and used in errors.
#[derive(Clone, Copy, PartialEq, Eq, Structural, Debug)]
pub enum Ty {
    Nil,
    Bool,
    Number,
    Symbol,
    Str,
    Function,
    List,
}

/// One lexical token.  `End` marks the end of the input and is idempotent.
#[derive(Debug)]
pub enum Token {
    Lparen,
    Rparen,
    Quote,
    Number(i64),
    Ident(Vec<char>),
    Str(Vec<char>),
    Error(ParseError),
    End,
}

/// A runtime value.  Values are immutable after construction; the evaluator
/// replaces bindings in an environment rather than mutating values.
#[derive(Debug)]
pub enum Value {
    Nil,
    Bool(bool),
    Number(i64),
    Symbol(Vec<char>),
    Str(Vec<char>),
    Builtin(Builtin),
    Lambda(Box<Lambda>),
    List(List),
}

/// A persistent singly linked cons list, used both for source expressions
/// and for runtime lists.
#[derive(Debug)]
pub enum List {
    Node(Box<Cons>),
    End,
}

/// One cons cell: a head value and a tail list.
#[derive(Debug)]
pub struct Cons {
    pub car: Value,
    pub cdr: List,
}

/// Errors of the syntactic front end.
///
/// `EndOfStream` is the only parse error that the top-level parse loop
/// treats as normal termination.
#[derive(Clone, Copy, PartialEq, Eq, Structural, Debug)]
pub enum ParseError {
    UnclosedString,
    InvalidNumber,
    UnclosedList,
    UnexpectedRparen,
    NoQuoteArg,
    EndOfStream,
}

/// Errors of the evaluator.
///
/// `StackOverflow` reports that the explicit recursion budget handed to
/// `eval` ran out; every other variant mirrors a semantic fault of the
/// evaluated program.
#[derive(Debug, PartialEq)]
pub enum RuntimeError {
    UnkSymbol(Vec<char>),
    InvalidCall(Ty),
    InvalidArgNum(usize, usize),
    InvalidArgType(Ty, Ty),
    InvalidComp(Ty, Ty),
    StackOverflow,
}

/// The ghost model of a token.
pub enum TokV {
    Lparen,
    Rparen,
    Quote,
    Number(int),
    Ident(Seq<char>),
    Str(Seq<char>),
    Error(ParseError),
    End,
}

/// Model of a token.
pub open spec fn token_view(t: Token) -> TokV {
    match t {
        Token::Lparen => TokV::Lparen,
        Token::Rparen => TokV::Rparen,
        Token::Quote => TokV::Quote,
        Token::Number(n) => TokV::Number(n as int),
        Token::Ident(s) => TokV::Ident(s@),
        Token::Str(s) => TokV::Str(s@),
        Token::Error(e) => TokV::Error(e),
        Token::End => TokV::End,
    }
}

impl View for Token {
    type V = TokV;

    open spec fn view(&self) -> TokV {
        token_view(*self)
    }
}

/// The ghost model of a runtime value: text is a sequence of characters and
/// a list is the sequence of the models of its elements.
pub enum Val {
    Nil,
    Bool(bool),
    Num(i64),
    Symbol(Seq<char>),
    Str(Seq<char>),
    Builtin(Builtin),
    Lambda(LambdaV),
    List(Seq<Val>),
}

/// The ghost model of a runtime error.
pub enum ErrV {
    UnkSymbol(Seq<char>),
    InvalidCall(Ty),
    InvalidArgNum(usize, usize),
    InvalidArgType(Ty, Ty),
    InvalidComp(Ty, Ty),
    StackOverflow,
}

/// Model of a value.
pub open spec fn val_view(v: Value) -> Val
    decreases v,
{
    match v {
        Value::Nil => Val::Nil,
        Value::Bool(b) => Val::Bool(b),
        Value::Number(n) => Val::Num(n),
        Value::Symbol(s) => Val::Symbol(s@),
        Value::Str(s) => Val::Str(s@),
        Value::Builtin(b) => Val::Builtin(b),
        Value::Lambda(l) => Val::Lambda(LambdaV {
            id: l.id,
            params: names_view(l.params@),
            body: vals_view(l.body@),
            env: l.env as nat,
        }),
        Value::List(l) => Val::List(list_view(l)),
    }
}

/// Model of a cons list: the sequence of the models of its elements.
pub open spec fn list_view(l: List) -> Seq<Val>
    decreases l,
{
    match l {
        List::End => Seq::empty(),
        List::Node(c) => seq![val_view(c.car)] + list_view(c.cdr),
    }
}

/// Model of a vector of values, element by element.
pub open spec fn vals_view(s: Seq<Value>) -> Seq<Val>
    decreases s,
{
    if s.len() == 0 {
        Seq::empty()
    } else {
        seq![val_view(s[0])] + vals_view(s.drop_first())
    }
}

/// Model of a vector of names, element by element.
pub open spec fn names_view(s: Seq<Vec<char>>) -> Seq<Seq<char>> {
    Seq::new(s.len(), |i: int| s[i]@)
}

impl View for Value {
    type V = Val;

    open spec fn view(&self) -> Val {
        val_view(*self)
    }
}

impl View for List {
    type V = Seq<Val>;

    open spec fn view(&self) -> Seq<Val> {
        list_view(*self)
    }
}

/// Model of an evaluation outcome.
pub open spec fn err_view(e: RuntimeError) -> ErrV {
    match e {
        RuntimeError::UnkSymbol(s) => ErrV::UnkSymbol(s@),
        RuntimeError::InvalidCall(t) => ErrV::InvalidCall(t),
        RuntimeError::InvalidArgNum(n, g) => ErrV::InvalidArgNum(n, g),
        RuntimeError::InvalidArgType(e, a) => ErrV::InvalidArgType(e, a),
        RuntimeError::InvalidComp(a, b) => ErrV::InvalidComp(a, b),
        RuntimeError::StackOverflow => ErrV::StackOverflow,
    }
}

impl View for RuntimeError {
    type V = ErrV;

    open spec fn view(&self) -> ErrV {
        err_view(*self)
    }
}

/// Model of a `Result` returned by the evaluator.
pub open spec fn res_view(r: Result<Value, RuntimeError>) -> Result<Val, ErrV> {
    match r {
        Ok(v) => Ok(v@),
        Err(e) => Err(e@),
    }
}

/// The runtime type of a modelled value.
pub open spec fn ty_of(v: Val) -> Ty {
    match v {
        Val::Nil => Ty::Nil,
        Val::Bool(_) => Ty::Bool,
        Val::Num(_) => Ty::Number,
        Val::Symbol(_) => Ty::Symbol,
        Val::Str(_) => Ty::Str,
        Val::Builtin(_) => Ty::Function,
        Val::Lambda(_) => Ty::Function,
        Val::List(_) => Ty::List,
    }
}

/// A value is well formed with respect to a store of `n` environment frames
/// when every lambda nested in it captures one of those frames.
pub open spec fn val_valid(v: Val, n: nat) -> bool
    decreases v,
{
    match v {
        Val::Lambda(l) => l.env < n && vals_valid(l.body, n),
        Val::List(s) => vals_valid(s, n),
        _ => true,
    }
}

/// Every value of the sequence is well formed (see [`val_valid`]).
pub open spec fn vals_valid(s: Seq<Val>, n: nat) -> bool
    decreases s,
{
    if s.len() == 0 {
        true
    } else {
        val_valid(s[0], n) && vals_valid(s.drop_first(), n)
    }
}

/// `vals_valid` is the elementwise conjunction of `val_valid`.
pub proof fn lemma_vals_valid_index(s: Seq<Val>, n: nat)
    ensures
        vals_valid(s, n) <==> (forall|i: int| 0 <= i < s.len() ==> val_valid(#[trigger] s[i], n)),
    decreases s.len(),
{
    if s.len() > 0 {
        lemma_vals_valid_index(s.drop_first(), n);
        assert forall|i: int| 0 <= i < s.len() && vals_valid(s, n) implies val_valid(
            #[trigger] s[i],
            n,
        ) by {
            if i > 0 {
                assert(s.drop_first()[i - 1] == s[i]);
            }
        }
        if forall|i: int| 0 <= i < s.len() ==> val_valid(#[trigger] s[i], n) {
            assert forall|i: int| 0 <= i < s.drop_first().len() implies val_valid(
                #[trigger] s.drop_first()[i],
                n,
            ) by {
                assert(s.drop_first()[i] == s[i + 1]);
            }
        }
    }
}

/// `vals_view` maps `val_view` over the sequence, element by element.
pub proof fn lemma_vals_view_elts(s: Seq<Value>)
    ensures
        vals_view(s).len() == s.len(),
        forall|i: int| 0 <= i < s.len() ==> vals_view(s)[i] == val_view(#[trigger] s[i]),
    decreases s.len(),
{
    if s.len() > 0 {
        lemma_vals_view_elts(s.drop_first());
        assert forall|i: int| 0 <= i < s.len() implies vals_view(s)[i] == val_view(
            #[trigger] s[i],
        ) by {
            if i > 0 {
                assert(s.drop_first()[i - 1] == s[i]);
            }
        }
    }
}

/// Appending one value appends its model.
pub proof fn lemma_vals_view_push(s: Seq<Value>, x: Value)
    ensures
        vals_view(s + seq![x]) == vals_view(s) + seq![val_view(x)],
{
    let t = s + seq![x];
    lemma_vals_view_elts(s);
    lemma_vals_view_elts(t);
    assert forall|i: int| 0 <= i < t.len() implies vals_view(t)[i] == (vals_view(s) + seq![
        val_view(x),
    ])[i] by {
        if i < s.len() {
            assert(t[i] == s[i]);
        } else {
            assert(t[i] == x);
        }
    }
    assert(vals_view(t) =~= vals_view(s) + seq![val_view(x)]);
}

/// Duplicates a value; the copy has the same model.
pub fn clone_value(v: &Value) -> (r: Value)
    ensures
        r@ == v@,
    decreases *v,
{
    match v {
        Value::Nil => Value::Nil,
        Value::Bool(b) => Value::Bool(*b),
        Value::Number(n) => Value::Number(*n),
        Value::Symbol(s) => Value::Symbol(clone_chars(s)),
        Value::Str(s) => Value::Str(clone_chars(s)),
        Value::Builtin(b) => Value::Builtin(*b),
        Value::Lambda(l) => Value::Lambda(
            Box::new(
                Lambda {
                    id: l.id,
                    params: clone_names(&l.params),
                    body: clone_values(&l.body),
                    env: l.env,
                },
            ),
        ),
        Value::List(l) => Value::List(clone_list(l)),
    }
}

/// Duplicates a cons list; the copy has the same model.
pub fn clone_list(l: &List) -> (r: List)
    ensures
        r@ == l@,
    decreases *l,
{
    match l {
        List::End => List::End,
        List::Node(c) => List::Node(
            Box::new(Cons { car: clone_value(&c.car), cdr: clone_list(&c.cdr) }),
        ),
    }
}

/// Duplicates a vector of values; the copy has the same model.
pub fn clone_values(v: &Vec<Value>) -> (r: Vec<Value>)
    ensures
        vals_view(r@) == vals_view(v@),
    decreases v@,
{
    let mut out: Vec<Value> = Vec::new();
    let mut i: usize = 0;
    while i < v.len()
        invariant
            i <= v.len(),
            out@.len() == i,
            vals_view(out@) == vals_view(v@.take(i as int)),
        decreases v.len() - i,
    {
        proof {
            assert(decreases_to!(v@ => v@[i as int]));
        }
        let x = clone_value(&v[i]);
        let ghost pre = out@;
        out.push(x);
        proof {
            assert(out@ =~= pre + seq![x]);
            lemma_vals_view_push(pre, x);
            lemma_vals_view_push(v@.take(i as int), v@[i as int]);
            assert(v@.take(i as int) + seq![v@[i as int]] =~= v@.take(i as int + 1));
        }
        i = i + 1;
    }
    proof {
        assert(v@.take(v@.len() as int) =~= v@);
    }
    out
}

/// Duplicates a vector of character vectors; the copy has the same model.
pub fn clone_chars(v: &Vec<char>) -> (r: Vec<char>)
    ensures
        r@ == v@,
{
    let mut out: Vec<char> = Vec::new();
    let mut i: usize = 0;
    while i < v.len()
        invariant
            i <= v.len(),
            out@ == v@.take(i as int),
        decreases v.len() - i,
    {
        out.push(v[i]);
        proof {
            assert(v@.take(i as int) + seq![v@[i as int]] =~= v@.take(i as int + 1));
        }
        i = i + 1;
    }
    proof {
        assert(v@.take(v@.len() as int) =~= v@);
    }
    out
}

/// Duplicates a vector of names; the copy has the same model.
pub fn clone_names(v: &Vec<Vec<char>>) -> (r: Vec<Vec<char>>)
    ensures
        names_view(r@) == names_view(v@),
{
    let mut out: Vec<Vec<char>> = Vec::new();
    let mut i: usize = 0;
    while i < v.len()
        invariant
            i <= v.len(),
            out@.len() == i,
            forall|j: int| 0 <= j < i ==> out@[j]@ == #[trigger] v@[j]@,
        decreases v.len() - i,
    {
        out.push(clone_chars(&v[i]));
        i = i + 1;
    }
    proof {
        assert(names_view(out@) =~= names_view(v@));
    }
    out
}

/// Compares two character vectors for equality of their contents.
pub fn chars_eq(a: &Vec<char>, b: &Vec<char>) -> (r: bool)
    ensures
        r == (a@ == b@),
{
    if a.len() != b.len() {
        return false;
    }
    let mut i: usize = 0;
    while i < a.len()
        invariant
            i <= a.len(),
            a@.len() == b@.len(),
            forall|j: int| 0 <= j < i ==> a@[j] == b@[j],
        decreases a.len() - i,
    {
        if a[i] != b[i] {
            return false;
        }
        i = i + 1;
    }
    proof {
        assert(a@ =~= b@);
    }
    true
}

impl Clone for Value {
    /// The copy has the same model as the original.
    fn clone(&self) -> (r: Self)
        ensures
            r@ == self@,
    {
        clone_value(self)
    }
}

impl Clone for List {
    /// The copy has the same model as the original.
    fn clone(&self) -> (r: Self)
        ensures
            r@ == self@,
    {
        clone_list(self)
    }
}

/// Well-formedness is preserved when the store grows.
pub proof fn lemma_val_valid_grow(v: Val, n: nat, m: nat)
    requires
        val_valid(v, n),
        n <= m,
    ensures
        val_valid(v, m),
    decreases v,
{
    match v {
        Val::Lambda(l) => {
            lemma_vals_valid_grow(l.body, n, m);
        },
        Val::List(s) => {
            lemma_vals_valid_grow(s, n, m);
        },
        _ => {},
    }
}

/// Elementwise form of [`lemma_val_valid_grow`].
pub proof fn lemma_vals_valid_grow(s: Seq<Val>, n: nat, m: nat)
    requires
        vals_valid(s, n),
        n <= m,
    ensures
        vals_valid(s, m),
    decreases s,
{
    if s.len() > 0 {
        lemma_val_valid_grow(s[0], n, m);
        lemma_vals_valid_grow(s.drop_first(), n, m);
    }
}

} // verus!
