//! End-to-end evaluation tests: source text in, printed forms out.

use rlisp::parser::Parser;
use rlisp::scope::Scope;

const FUEL: u64 = 100_000;

/// Parses and evaluates every expression of `src` in a fresh standard
/// environment; returns the display forms of the results (or error
/// messages), and the lines printed by `display`/`debug`.
fn run(src: &str) -> (Vec<String>, Vec<String>) {
    let mut sc = Scope::global();
    sc.load_stdlib();
    let mut results: Vec<String> = Vec::new();
    match Parser::new(src).parse() {
        Ok(vs) => {
            for v in vs {
                match v.eval(&mut sc, 0, FUEL) {
                    Ok(r) => results.push(r.display_text()),
                    Err(e) => results.push(format!("Error: {}", e.message())),
                }
            }
        }
        Err(e) => results.push(format!("Error: {}", e.message())),
    }
    let mut printed: Vec<String> = Vec::new();
    let mut i = 0;
    while i < sc.output_len() {
        printed.push(sc.output_line(i));
        i += 1;
    }
    (results, printed)
}

fn results(src: &str) -> Vec<String> {
    run(src).0
}

#[test]
fn addition_folds() {
    assert_eq!(results("(+ 1 2 3)"), vec!["6"]);
}

#[test]
fn nested_arithmetic() {
    assert_eq!(results("(* (+ 1 2) (- 10 3 2))"), vec!["15"]);
}

#[test]
fn let_set_and_lookup() {
    assert_eq!(results("(let x 10) (set x (+ x 5)) x"), vec!["10", "15", "15"]);
}

#[test]
fn lambda_application() {
    assert_eq!(results("((lambda (x y) (+ x y)) 3 4)"), vec!["7"]);
}

#[test]
fn map_squares() {
    assert_eq!(results("(map (lambda (x) (* x x)) '(1 4 9 16))"), vec!["(1 16 81 256)"]);
    assert_eq!(results("(map (lambda (x) (* x x)) '(1 2 3 4))"), vec!["(1 4 9 16)"]);
}

#[test]
fn if_on_car_of_quoted_list() {
    assert_eq!(results("(if (equal (car '(a b)) 'a) \"yes\" \"no\")"), vec!["\"yes\""]);
}

#[test]
fn fold_sums() {
    assert_eq!(results("(fold + 0 '(1 2 3 4 5))"), vec!["15"]);
}

#[test]
fn arithmetic_identities() {
    assert_eq!(results("(+)"), vec!["0"]);
    assert_eq!(results("(*)"), vec!["1"]);
    assert_eq!(results("(- 5)"), vec!["-5"]);
    assert_eq!(results("(/ 1)"), vec!["1"]);
    assert_eq!(results("(/ 7 2)"), vec!["3"]);
    assert_eq!(results("(/ 5 0)"), vec!["0"]);
}

#[test]
fn arithmetic_type_error() {
    assert_eq!(
        results("(+ 1 \"two\")"),
        vec!["Error: Invalid argument: expected Number, but found String"]
    );
}

#[test]
fn quote_is_identity() {
    assert_eq!(results("'5"), vec!["5"]);
    assert_eq!(results("'foo"), vec!["foo"]);
    assert_eq!(results("''foo"), vec!["(quote foo)"]);
    assert_eq!(results("(quote (1 2))"), vec!["(1 2)"]);
    // extra arguments to quote are ignored
    assert_eq!(results("(quote a b c)"), vec!["a"]);
}

#[test]
fn and_or_short_circuit_with_side_effects() {
    let (res, printed) = run("(and (display 1) #f (display 2))");
    assert_eq!(res, vec!["#f"]);
    assert_eq!(printed, vec!["1"]);
    let (res, printed) = run("(or (display nil) 7 (display 8))");
    assert_eq!(res, vec!["7"]);
    assert_eq!(printed, vec!["nil"]);
}

#[test]
fn and_or_empty_and_last() {
    assert_eq!(results("(and)"), vec!["#t"]);
    assert_eq!(results("(or)"), vec!["#f"]);
    assert_eq!(results("(and 1 2 3)"), vec!["3"]);
    assert_eq!(results("(or nil #f)"), vec!["#f"]);
}

#[test]
fn map_and_fold_pass_arguments_verbatim() {
    // the elements are unbound symbols: they would fail if re-evaluated
    assert_eq!(results("(map (lambda (x) x) '(a b c))"), vec!["(a b c)"]);
    assert_eq!(results("(fold (lambda (a x) x) 0 '(p q r))"), vec!["r"]);
}

#[test]
fn closure_capture_sees_set() {
    // mutating x via set after the closure is captured updates what it sees
    let src = "(begin (let x 1) (let f (lambda () x)) (set x 2) (funcall f))";
    assert_eq!(results(src), vec!["2"]);
}

#[test]
fn closure_capture_ignores_later_shadowing() {
    // a new x declared in a later scope does not affect the captured one
    let src = "(let f (begin (let x 1) (lambda () x))) \
               ((lambda (x) (funcall f)) 99)";
    assert_eq!(results(src), vec!["#<lambda>", "1"]);
}

#[test]
fn begin_scopes_are_local() {
    assert_eq!(
        results("(begin (let y 5) y) y"),
        vec!["5", "Error: Unbound variable: y"]
    );
}

#[test]
fn set_creates_at_root_when_unbound() {
    assert_eq!(results("(set z 3) z"), vec!["3", "3"]);
}

#[test]
fn funcall_and_apply() {
    assert_eq!(results("(funcall + 1 2)"), vec!["3"]);
    assert_eq!(results("(funcall)"), vec!["nil"]);
    assert_eq!(results("(apply + '(1 2 3))"), vec!["6"]);
    assert_eq!(results("(apply 5 '(1))"), vec!["Error: Invalid call on a Number value"]);
}

#[test]
fn eval_builtin() {
    assert_eq!(results("(eval '(+ 1 2))"), vec!["3"]);
}

#[test]
fn car_cdr_cons_list() {
    assert_eq!(results("(car '(1 2 3))"), vec!["1"]);
    assert_eq!(results("(cdr '(1 2 3))"), vec!["(2 3)"]);
    assert_eq!(results("(car '())"), vec!["nil"]);
    assert_eq!(results("(cdr '())"), vec!["nil"]);
    assert_eq!(results("(cons 1 '(2 3))"), vec!["(1 2 3)"]);
    assert_eq!(results("(list 1 2 3)"), vec!["(1 2 3)"]);
    assert_eq!(results("(list)"), vec!["()"]);
}

#[test]
fn not_and_atom() {
    assert_eq!(results("(not nil)"), vec!["#t"]);
    assert_eq!(results("(not 0)"), vec!["#f"]);
    assert_eq!(results("(atom 1)"), vec!["#t"]);
    assert_eq!(results("(atom '())"), vec!["#t"]);
    assert_eq!(results("(atom '(1))"), vec!["#f"]);
}

#[test]
fn equality_is_structural_on_data() {
    assert_eq!(results("(equal 1 1)"), vec!["#t"]);
    assert_eq!(results("(equal '(1 (2)) '(1 (2)))"), vec!["#t"]);
    assert_eq!(results("(equal \"a\" 'a)"), vec!["#f"]);
    assert_eq!(results("(equal 'a 'a)"), vec!["#t"]);
}

#[test]
fn equality_of_functions_is_identity() {
    assert_eq!(results("(equal + +)"), vec!["#t"]);
    assert_eq!(results("(equal + *)"), vec!["#f"]);
    // two separately evaluated lambda forms are distinct objects
    assert_eq!(results("(equal (lambda (x) x) (lambda (x) x))"), vec!["#f"]);
    // one lambda value compared with itself is equal
    assert_eq!(results("(let f (lambda (x) x)) (equal f f)"), vec!["#<lambda>", "#t"]);
}

#[test]
fn comparisons_on_numbers_and_strings() {
    assert_eq!(results("(< 1 2)"), vec!["#t"]);
    assert_eq!(results("(>= 2 2)"), vec!["#t"]);
    assert_eq!(results("(> \"b\" \"a\")"), vec!["#t"]);
    assert_eq!(results("(<= \"abc\" \"ab\")"), vec!["#f"]);
    assert_eq!(results("(< 1 \"a\")"), vec!["Error: Can't compare Number and String"]);
}

#[test]
fn typeof_names() {
    assert_eq!(
        results("(typeof nil) (typeof #t) (typeof 1) (typeof 'a) (typeof \"s\") (typeof +) (typeof '(1))"),
        vec!["\"Nil\"", "\"Bool\"", "\"Number\"", "\"Symbol\"", "\"String\"", "\"Function\"", "\"List\""]
    );
}

#[test]
fn display_and_debug_print_and_return() {
    let (res, printed) = run("(display \"hi\") (debug 'x)");
    assert_eq!(res, vec!["\"hi\"", "x"]);
    assert_eq!(printed, vec!["\"hi\"", "Symbol(x)"]);
}

#[test]
fn argument_count_errors() {
    assert_eq!(results("(car)"), vec!["Error: Expected 1 arguments, but got 0"]);
    assert_eq!(results("(cons 1)"), vec!["Error: Expected 2 arguments, but got 1"]);
    assert_eq!(results("(fold + 0)"), vec!["Error: Expected 3 arguments, but got 2"]);
    assert_eq!(results("((lambda (x y) x) 1)"), vec!["Error: Expected 2 arguments, but got 1"]);
}

#[test]
fn extra_lambda_arguments_are_ignored() {
    assert_eq!(results("((lambda (x) x) 1 2 3)"), vec!["1"]);
}

#[test]
fn calling_a_non_function_fails() {
    assert_eq!(results("(1 2)"), vec!["Error: Invalid call on a Number value"]);
    assert_eq!(results("()"), vec!["nil"]);
}

#[test]
fn unknown_symbol_fails() {
    assert_eq!(results("nope"), vec!["Error: Unbound variable: nope"]);
}

#[test]
fn let_requires_a_symbol() {
    assert_eq!(
        results("(let 5 1)"),
        vec!["Error: Invalid argument: expected Symbol, but found Number"]
    );
}

#[test]
fn if_without_else_yields_nil() {
    assert_eq!(results("(if #f 1)"), vec!["nil"]);
    assert_eq!(results("(if nil 1 2)"), vec!["2"]);
    assert_eq!(results("(if 0 1 2)"), vec!["1"]);
}

#[test]
fn deep_recursion_reports_limit() {
    let mut sc = Scope::global();
    sc.load_stdlib();
    let vs = Parser::new("(let f (lambda () (funcall f))) (funcall f)")
        .parse()
        .unwrap();
    assert!(vs[0].eval(&mut sc, 0, 1000).is_ok());
    match vs[1].eval(&mut sc, 0, 1000) {
        Err(e) => assert_eq!(e.message(), "Recursion limit reached"),
        Ok(_) => panic!("expected the recursion budget to run out"),
    }
}

#[test]
fn wrapping_arithmetic() {
    assert_eq!(
        results("(+ 9223372036854775807 1)"),
        vec!["-9223372036854775808"]
    );
    assert_eq!(results("(- 0 -9223372036854775808)"), vec!["-9223372036854775808"]);
}

#[test]
fn display_parse_eval_round_trip() {
    // re-reading the printed form of a result evaluates to the same value
    for src in ["(+ 2 3)", "#t", "nil", "\"hello\"", "(- 1 8)"] {
        let first = results(src);
        let again = results(&first[0]);
        assert_eq!(first, again);
    }
}
