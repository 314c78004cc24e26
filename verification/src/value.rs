//! Value-level operations: type names, quoting, and the two printed forms.
//!
//! The display form of every value is specified by the pure function
//! [`display_of`]; the executable printer is proved to produce exactly that
//! character sequence.  The display form is unambiguous for every variant:
//! strings are shown with surrounding double quotes and no escaping, numbers
//! in canonical decimal form, lists in parenthesised space-separated form.

use vstd::prelude::*;
use vstd::string::StrSliceExecFns;

use crate::builtins::builtin_name;
use crate::data::{
    clone_chars, clone_value, res_view, ty_of, val_valid, ErrV, List, ParseError, RuntimeError,
    Ty, Val, Value,
};
use crate::scope::Scope;
use crate::semantics::ev;

verus! {

/// The decimal digit character for `d`.
pub open spec fn digit_char(d: nat) -> char {
    if d == 0 {
        '0'
    } else if d == 1 {
        '1'
    } else if d == 2 {
        '2'
    } else if d == 3 {
        '3'
    } else if d == 4 {
        '4'
    } else if d == 5 {
        '5'
    } else if d == 6 {
        '6'
    } else if d == 7 {
        '7'
    } else if d == 8 {
        '8'
    } else {
        '9'
    }
}

/// The decimal digits of `n`, most significant first.
pub open spec fn dec_digits(n: nat) -> Seq<char>
    decreases n,
{
    if n < 10 {
        seq![digit_char(n)]
    } else {
        dec_digits(n / 10) + seq![digit_char(n % 10)]
    }
}

/// The canonical decimal rendering of an integer: a minus sign for negative
/// numbers, then the digits without leading zeros.
pub open spec fn num_chars(n: int) -> Seq<char> {
    if n < 0 {
        seq!['-'] + dec_digits((-n) as nat)
    } else {
        dec_digits(n as nat)
    }
}

/// The name of a runtime type, as `typeof` reports it.
pub open spec fn ty_name(t: Ty) -> Seq<char> {
    match t {
        Ty::Nil => "Nil"@,
        Ty::Bool => "Bool"@,
        Ty::Number => "Number"@,
        Ty::Symbol => "Symbol"@,
        Ty::Str => "String"@,
        Ty::Function => "Function"@,
        Ty::List => "List"@,
    }
}

/// The display (human) form of a value.
pub open spec fn display_of(v: Val) -> Seq<char>
    decreases v,
{
    match v {
        Val::Nil => "nil"@,
        Val::Bool(b) => if b {
            "#t"@
        } else {
            "#f"@
        },
        Val::Num(n) => num_chars(n as int),
        Val::Symbol(s) => s,
        Val::Str(s) => seq!['"'] + s + seq!['"'],
        Val::Builtin(b) => "#<builtin:"@ + builtin_name(b) + seq!['>'],
        Val::Lambda(_) => "#<lambda>"@,
        Val::List(s) => seq!['('] + display_items(s) + seq![')'],
    }
}

/// The display forms of the elements of a list, separated by single spaces.
pub open spec fn display_items(s: Seq<Val>) -> Seq<char>
    decreases s,
{
    if s.len() == 0 {
        Seq::empty()
    } else if s.len() == 1 {
        display_of(s[0])
    } else {
        display_of(s[0]) + seq![' '] + display_items(s.drop_first())
    }
}

/// The debug (structural) form of a value: like the display form, but every
/// atom is wrapped in the name of its type, so that symbols, strings and
/// numbers cannot be confused.
pub open spec fn debug_of(v: Val) -> Seq<char>
    decreases v,
{
    match v {
        Val::Nil => "Nil"@,
        Val::Bool(b) => if b {
            "Bool(#t)"@
        } else {
            "Bool(#f)"@
        },
        Val::Num(n) => "Number("@ + num_chars(n as int) + seq![')'],
        Val::Symbol(s) => "Symbol("@ + s + seq![')'],
        Val::Str(s) => "String(\""@ + s + "\")"@,
        Val::Builtin(b) => "Builtin("@ + builtin_name(b) + seq![')'],
        Val::Lambda(_) => "Lambda"@,
        Val::List(s) => "List("@ + debug_items(s) + seq![')'],
    }
}

/// The debug forms of the elements of a list, separated by single spaces.
pub open spec fn debug_items(s: Seq<Val>) -> Seq<char>
    decreases s,
{
    if s.len() == 0 {
        Seq::empty()
    } else if s.len() == 1 {
        debug_of(s[0])
    } else {
        debug_of(s[0]) + seq![' '] + debug_items(s.drop_first())
    }
}

/// Every value's type name is one of the seven names of the language: this
/// is the complete range of `type_name`.
pub proof fn lemma_type_name_range(v: Val)
    ensures
        ty_name(ty_of(v)) == "Nil"@ || ty_name(ty_of(v)) == "Bool"@ || ty_name(ty_of(v))
            == "Number"@ || ty_name(ty_of(v)) == "Symbol"@ || ty_name(ty_of(v)) == "String"@
            || ty_name(ty_of(v)) == "Function"@ || ty_name(ty_of(v)) == "List"@,
{
}

/// The characters of a string slice, in order.
pub fn chars_of(s: &str) -> (r: Vec<char>)
    ensures
        r@ == s@,
{
    let n = s.unicode_len();
    let mut out: Vec<char> = Vec::new();
    let mut i: usize = 0;
    while i < n
        invariant
            i <= n,
            n == s@.len(),
            out@ == s@.take(i as int),
        decreases n - i,
    {
        out.push(s.get_char(i));
        proof {
            assert(out@ =~= s@.take(i as int + 1));
        }
        i = i + 1;
    }
    proof {
        assert(s@.take(n as int) =~= s@);
    }
    out
}

/// Relies on `String`'s `FromIterator<char>` (through `Iterator::collect`):
/// collecting characters yields the string of exactly those characters.
#[verifier::external_body]
pub fn string_of(chars: &Vec<char>) -> (r: String)
    ensures
        r@ == chars@,
{
    chars.iter().copied().collect()
}

/// The decimal digit character for `d`.
fn digit_to_char(d: u64) -> (c: char)
    requires
        d < 10,
    ensures
        c == digit_char(d as nat),
{
    if d == 0 {
        '0'
    } else if d == 1 {
        '1'
    } else if d == 2 {
        '2'
    } else if d == 3 {
        '3'
    } else if d == 4 {
        '4'
    } else if d == 5 {
        '5'
    } else if d == 6 {
        '6'
    } else if d == 7 {
        '7'
    } else if d == 8 {
        '8'
    } else {
        '9'
    }
}

/// Appends the decimal digits of `n` to the buffer.
fn push_dec(n: u64, out: &mut Vec<char>)
    ensures
        final(out)@ == old(out)@ + dec_digits(n as nat),
    decreases n,
{
    if n < 10 {
        out.push(digit_to_char(n));
        proof {
            assert(out@ =~= old(out)@ + dec_digits(n as nat));
        }
    } else {
        push_dec(n / 10, out);
        out.push(digit_to_char(n % 10));
        proof {
            assert(out@ =~= old(out)@ + dec_digits(n as nat));
        }
    }
}

/// Appends the canonical decimal rendering of `n` to the buffer.
fn push_num(n: i64, out: &mut Vec<char>)
    ensures
        final(out)@ == old(out)@ + num_chars(n as int),
{
    if n >= 0 {
        push_dec(n as u64, out);
    } else {
        out.push('-');
        let mag: u64 = ((-(n + 1)) as u64) + 1;
        proof {
            assert(mag as nat == (-(n as int)) as nat);
        }
        push_dec(mag, out);
        proof {
            assert(out@ =~= old(out)@ + num_chars(n as int));
        }
    }
}

/// Appends the characters of a string slice to the buffer.
fn push_str_chars(s: &str, out: &mut Vec<char>)
    ensures
        final(out)@ == old(out)@ + s@,
{
    let cs = chars_of(s);
    let mut i: usize = 0;
    while i < cs.len()
        invariant
            i <= cs.len(),
            cs@ == s@,
            out@ == old(out)@ + s@.take(i as int),
        decreases cs.len() - i,
    {
        out.push(cs[i]);
        proof {
            assert(out@ =~= old(out)@ + s@.take(i as int + 1));
        }
        i = i + 1;
    }
    proof {
        assert(old(out)@ + s@.take(s@.len() as int) =~= old(out)@ + s@);
    }
}

/// Appends the characters of a character vector to the buffer.
fn push_chars(s: &Vec<char>, out: &mut Vec<char>)
    ensures
        final(out)@ == old(out)@ + s@,
{
    let mut i: usize = 0;
    while i < s.len()
        invariant
            i <= s.len(),
            out@ == old(out)@ + s@.take(i as int),
        decreases s.len() - i,
    {
        out.push(s[i]);
        proof {
            assert(out@ =~= old(out)@ + s@.take(i as int + 1));
        }
        i = i + 1;
    }
    proof {
        assert(old(out)@ + s@.take(s@.len() as int) =~= old(out)@ + s@);
    }
}

/// Appends the display form of a value to the buffer.
fn write_display(v: &Value, out: &mut Vec<char>)
    ensures
        final(out)@ == old(out)@ + display_of(v@),
    decreases *v,
{
    match v {
        Value::Nil => {
            push_str_chars("nil", out);
        },
        Value::Bool(b) => {
            if *b {
                push_str_chars("#t", out);
            } else {
                push_str_chars("#f", out);
            }
        },
        Value::Number(n) => {
            push_num(*n, out);
        },
        Value::Symbol(s) => {
            push_chars(s, out);
        },
        Value::Str(s) => {
            out.push('"');
            push_chars(s, out);
            out.push('"');
            proof {
                assert(out@ =~= old(out)@ + display_of(v@));
            }
        },
        Value::Builtin(b) => {
            push_str_chars("#<builtin:", out);
            push_str_chars(b.name(), out);
            out.push('>');
            proof {
                assert(out@ =~= old(out)@ + display_of(v@));
            }
        },
        Value::Lambda(_) => {
            push_str_chars("#<lambda>", out);
        },
        Value::List(l) => {
            out.push('(');
            write_display_items(l, out);
            out.push(')');
            proof {
                assert(out@ =~= old(out)@ + display_of(v@));
            }
        },
    }
}

/// Appends the space-separated display forms of the list elements.
fn write_display_items(l: &List, out: &mut Vec<char>)
    ensures
        final(out)@ == old(out)@ + display_items(l@),
    decreases *l,
{
    match l {
        List::End => {},
        List::Node(c) => {
            write_display(&c.car, out);
            match &c.cdr {
                List::End => {
                    proof {
                        assert(l@ == seq![c.car@] + c.cdr@);
                        assert(c.cdr@ =~= Seq::<Val>::empty());
                        assert(l@ =~= seq![c.car@]);
                        assert(display_items(l@) == display_of(c.car@));
                    }
                },
                List::Node(_) => {
                    out.push(' ');
                    write_display_items(&c.cdr, out);
                    proof {
                        assert(l@[0] == c.car@);
                        assert(l@.drop_first() =~= c.cdr@);
                        assert(l@.len() >= 2);
                        assert(out@ =~= old(out)@ + display_items(l@));
                    }
                },
            }
        },
    }
}

/// Appends the debug form of a value to the buffer.
fn write_debug(v: &Value, out: &mut Vec<char>)
    ensures
        final(out)@ == old(out)@ + debug_of(v@),
    decreases *v,
{
    match v {
        Value::Nil => {
            push_str_chars("Nil", out);
        },
        Value::Bool(b) => {
            if *b {
                push_str_chars("Bool(#t)", out);
            } else {
                push_str_chars("Bool(#f)", out);
            }
        },
        Value::Number(n) => {
            push_str_chars("Number(", out);
            push_num(*n, out);
            out.push(')');
            proof {
                assert(out@ =~= old(out)@ + debug_of(v@));
            }
        },
        Value::Symbol(s) => {
            push_str_chars("Symbol(", out);
            push_chars(s, out);
            out.push(')');
            proof {
                assert(out@ =~= old(out)@ + debug_of(v@));
            }
        },
        Value::Str(s) => {
            push_str_chars("String(\"", out);
            push_chars(s, out);
            push_str_chars("\")", out);
            proof {
                assert(out@ =~= old(out)@ + debug_of(v@));
            }
        },
        Value::Builtin(b) => {
            push_str_chars("Builtin(", out);
            push_str_chars(b.name(), out);
            out.push(')');
            proof {
                assert(out@ =~= old(out)@ + debug_of(v@));
            }
        },
        Value::Lambda(_) => {
            push_str_chars("Lambda", out);
        },
        Value::List(l) => {
            push_str_chars("List(", out);
            write_debug_items(l, out);
            out.push(')');
            proof {
                assert(out@ =~= old(out)@ + debug_of(v@));
            }
        },
    }
}

/// Appends the space-separated debug forms of the list elements.
fn write_debug_items(l: &List, out: &mut Vec<char>)
    ensures
        final(out)@ == old(out)@ + debug_items(l@),
    decreases *l,
{
    match l {
        List::End => {},
        List::Node(c) => {
            write_debug(&c.car, out);
            match &c.cdr {
                List::End => {
                    proof {
                        assert(l@ == seq![c.car@] + c.cdr@);
                        assert(c.cdr@ =~= Seq::<Val>::empty());
                        assert(l@ =~= seq![c.car@]);
                        assert(debug_items(l@) == debug_of(c.car@));
                    }
                },
                List::Node(_) => {
                    out.push(' ');
                    write_debug_items(&c.cdr, out);
                    proof {
                        assert(l@[0] == c.car@);
                        assert(l@.drop_first() =~= c.cdr@);
                        assert(l@.len() >= 2);
                        assert(out@ =~= old(out)@ + debug_items(l@));
                    }
                },
            }
        },
    }
}

/// The message printed for a parse error.
pub open spec fn parse_err_chars(e: ParseError) -> Seq<char> {
    match e {
        ParseError::UnclosedString => "Unclosed string"@,
        ParseError::InvalidNumber => "Invalid number literal"@,
        ParseError::UnclosedList => "Unclosed list"@,
        ParseError::UnexpectedRparen => "Unexpected ')'"@,
        ParseError::NoQuoteArg => "Missing quote argument"@,
        ParseError::EndOfStream => "End of stream"@,
    }
}

/// The message printed for a runtime error.
pub open spec fn err_chars(e: ErrV) -> Seq<char> {
    match e {
        ErrV::UnkSymbol(s) => "Unbound variable: "@ + s,
        ErrV::InvalidCall(t) => "Invalid call on a "@ + ty_name(t) + " value"@,
        ErrV::InvalidArgNum(n, a) => "Expected "@ + dec_digits((n as u64) as nat)
            + " arguments, but got "@ + dec_digits((a as u64) as nat),
        ErrV::InvalidArgType(a, b) => "Invalid argument: expected "@ + ty_name(a)
            + ", but found "@ + ty_name(b),
        ErrV::InvalidComp(a, b) => "Can't compare "@ + ty_name(a) + " and "@ + ty_name(b),
        ErrV::StackOverflow => "Recursion limit reached"@,
    }
}

/// The name of a runtime type as an owned string.
fn ty_text(t: Ty) -> (r: &'static str)
    ensures
        r@ == ty_name(t),
{
    match t {
        Ty::Nil => "Nil",
        Ty::Bool => "Bool",
        Ty::Number => "Number",
        Ty::Symbol => "Symbol",
        Ty::Str => "String",
        Ty::Function => "Function",
        Ty::List => "List",
    }
}

impl ParseError {
    /// The message of the error, per [`parse_err_chars`].
    pub fn message(&self) -> (r: String)
        ensures
            r@ == parse_err_chars(*self),
    {
        let text = match self {
            ParseError::UnclosedString => "Unclosed string",
            ParseError::InvalidNumber => "Invalid number literal",
            ParseError::UnclosedList => "Unclosed list",
            ParseError::UnexpectedRparen => "Unexpected ')'",
            ParseError::NoQuoteArg => "Missing quote argument",
            ParseError::EndOfStream => "End of stream",
        };
        let buf = chars_of(text);
        string_of(&buf)
    }
}

impl RuntimeError {
    /// The message of the error, per [`err_chars`].
    pub fn message(&self) -> (r: String)
        ensures
            r@ == err_chars(self@),
    {
        let mut buf: Vec<char> = Vec::new();
        match self {
            RuntimeError::UnkSymbol(s) => {
                push_str_chars("Unbound variable: ", &mut buf);
                push_chars(s, &mut buf);
            },
            RuntimeError::InvalidCall(t) => {
                push_str_chars("Invalid call on a ", &mut buf);
                push_str_chars(ty_text(*t), &mut buf);
                push_str_chars(" value", &mut buf);
            },
            RuntimeError::InvalidArgNum(n, a) => {
                push_str_chars("Expected ", &mut buf);
                push_dec(*n as u64, &mut buf);
                push_str_chars(" arguments, but got ", &mut buf);
                push_dec(*a as u64, &mut buf);
            },
            RuntimeError::InvalidArgType(a, b) => {
                push_str_chars("Invalid argument: expected ", &mut buf);
                push_str_chars(ty_text(*a), &mut buf);
                push_str_chars(", but found ", &mut buf);
                push_str_chars(ty_text(*b), &mut buf);
            },
            RuntimeError::InvalidComp(a, b) => {
                push_str_chars("Can't compare ", &mut buf);
                push_str_chars(ty_text(*a), &mut buf);
                push_str_chars(" and ", &mut buf);
                push_str_chars(ty_text(*b), &mut buf);
            },
            RuntimeError::StackOverflow => {
                push_str_chars("Recursion limit reached", &mut buf);
            },
        }
        string_of(&buf)
    }
}

/// The display form of a value as a character vector.
pub fn display_chars(v: &Value) -> (r: Vec<char>)
    ensures
        r@ == display_of(v@),
{
    let mut buf: Vec<char> = Vec::new();
    write_display(v, &mut buf);
    buf
}

/// The debug form of a value as a character vector.
pub fn debug_chars(v: &Value) -> (r: Vec<char>)
    ensures
        r@ == debug_of(v@),
{
    let mut buf: Vec<char> = Vec::new();
    write_debug(v, &mut buf);
    buf
}

impl Value {
    /// The name of the runtime type of the value, one of the seven names
    /// listed by [`ty_name`].
    pub fn type_text(&self) -> (r: &'static str)
        ensures
            r@ == ty_name(ty_of(self@)),
    {
        match self {
            Value::Nil => "Nil",
            Value::Bool(_) => "Bool",
            Value::Number(_) => "Number",
            Value::Symbol(_) => "Symbol",
            Value::Str(_) => "String",
            Value::Builtin(_) => "Function",
            Value::Lambda(_) => "Function",
            Value::List(_) => "List",
        }
    }

    /// The runtime type tag of the value.
    pub fn ty(&self) -> (r: Ty)
        ensures
            r == ty_of(self@),
    {
        match self {
            Value::Nil => Ty::Nil,
            Value::Bool(_) => Ty::Bool,
            Value::Number(_) => Ty::Number,
            Value::Symbol(_) => Ty::Symbol,
            Value::Str(_) => Ty::Str,
            Value::Builtin(_) => Ty::Function,
            Value::Lambda(_) => Ty::Function,
            Value::List(_) => Ty::List,
        }
    }

    /// Wraps the value in the two-element list `(quote v)`.
    pub fn quote(self) -> (r: Value)
        ensures
            r@ == Val::List(seq![Val::Symbol("quote"@), self@]),
    {
        let ghost m = self@;
        let sym = Value::Symbol(chars_of("quote"));
        let tail = self.wrap();
        let r = Value::List(List::cons(sym, tail));
        proof {
            assert(seq![Val::Symbol("quote"@)] + seq![m] =~= seq![Val::Symbol("quote"@), m]);
        }
        r
    }

    /// Wraps the value in a singleton list.
    pub fn wrap(self) -> (r: List)
        ensures
            r@ == seq![self@],
    {
        let ghost m = self@;
        let r = List::cons(self, List::End);
        proof {
            assert(seq![m] + Seq::<Val>::empty() =~= seq![m]);
        }
        r
    }

    /// The display (human) form of the value, per [`display_of`].
    pub fn display_text(&self) -> (r: String)
        ensures
            r@ == display_of(self@),
    {
        let mut buf: Vec<char> = Vec::new();
        write_display(self, &mut buf);
        string_of(&buf)
    }

    /// The debug (structural) form of the value, per [`debug_of`].
    pub fn debug_text(&self) -> (r: String)
        ensures
            r@ == debug_of(self@),
    {
        let mut buf: Vec<char> = Vec::new();
        write_debug(self, &mut buf);
        string_of(&buf)
    }

    /// Evaluates the value against the frame `env` of the store, per the
    /// reference semantics [`ev`]: atoms evaluate to themselves, a symbol
    /// to its binding, and a non-empty list as a call.  `fuel` bounds the
    /// depth of the evaluation; when it runs out the result is the
    /// `StackOverflow` error.
    pub fn eval(&self, sc: &mut Scope, env: usize, fuel: u64) -> (r: Result<Value, RuntimeError>)
        requires
            old(sc).wf(),
            env < old(sc)@.frames.len(),
            val_valid(self@, old(sc)@.frames.len() as nat),
        ensures
            final(sc).wf(),
            old(sc)@.frames.len() <= final(sc)@.frames.len(),
            ({
                let (st2, r2) = ev(old(sc)@, self@, env as int, fuel as nat);
                final(sc)@ == st2 && res_view(r) == r2
            }),
            r is Ok ==> val_valid(r->Ok_0@, final(sc)@.frames.len() as nat),
        decreases fuel, 1int,
    {
        if fuel == 0 {
            return Err(RuntimeError::StackOverflow);
        }
        match self {
            Value::Symbol(s) => match sc.get(env, s) {
                Some(v) => Ok(v),
                None => Err(RuntimeError::UnkSymbol(clone_chars(s))),
            },
            Value::List(l) => l.call(sc, env, fuel),
            _ => Ok(clone_value(self)),
        }
    }
}

} // verus!
