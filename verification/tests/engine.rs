use bleepscript::bleep::Bleep;
use bleepscript::char_reader::CharReader;
use bleepscript::error::{ParseError, ParseErrorKind};
use bleepscript::store::{Host, Store};
use bleepscript::value::{RunError, Value};

struct Arithmetic;

fn num(x: f64) -> Value {
    Value::Number(x.to_bits())
}

fn truth(b: bool) -> Value {
    num(if b { 1.0 } else { 0.0 })
}

fn pair(args: &Vec<Value>) -> Result<(f64, f64), RunError> {
    match (args.get(0), args.get(1)) {
        (Some(Value::Number(a)), Some(Value::Number(b))) => {
            Ok((f64::from_bits(*a), f64::from_bits(*b)))
        }
        _ => Err(RunError::TypeMismatch),
    }
}

impl Host for Arithmetic {
    fn call_native(
        &mut self,
        native: usize,
        args: &Vec<Value>,
        _caller: usize,
        store: &Store,
    ) -> Result<Value, RunError> {
        let first = args.get(0).copied().unwrap_or(Value::Null);
        let second = args.get(1).copied().unwrap_or(Value::Null);
        match native {
            0 => Ok(truth(first.is_truthy() || second.is_truthy())),
            1 => Ok(truth(first.is_truthy() && second.is_truthy())),
            2 => Ok(truth(store.values_equal(first, second))),
            3 => Ok(truth(!store.values_equal(first, second))),
            4 => pair(args).map(|(a, b)| truth(a < b)),
            5 => pair(args).map(|(a, b)| truth(a <= b)),
            6 => pair(args).map(|(a, b)| truth(a > b)),
            7 => pair(args).map(|(a, b)| truth(a >= b)),
            8 => pair(args).map(|(a, b)| num(a + b)),
            9 => pair(args).map(|(a, b)| num(a - b)),
            10 => pair(args).map(|(a, b)| num(a * b)),
            11 => pair(args).map(|(a, b)| num(a / b)),
            12 => pair(args).map(|(a, b)| num(a % b)),
            13 => match first {
                Value::Number(a) => Ok(num(-f64::from_bits(a))),
                _ => Err(RunError::TypeMismatch),
            },
            14 => Ok(truth(!first.is_truthy())),
            100 => Err(RunError::Native(7)),
            _ => Err(RunError::NotCallable),
        }
    }
}

fn chars(s: &str) -> Vec<char> {
    s.chars().collect()
}

fn try_compile(source: &str) -> Result<Bleep, ParseError> {
    let mut reader = CharReader::new(chars(source));
    let mut engine = Bleep::new();
    engine.set_var(chars("fail"), Value::Native(100));
    let mut engine = engine.compile(&mut reader)?;
    for k in 0..engine.number_count() {
        let text: String = engine.number_text(k).unwrap().into_iter().collect();
        assert!(engine.set_number(k, text.parse::<f64>().unwrap().to_bits()));
    }
    Ok(engine)
}

fn compile(source: &str) -> Bleep {
    try_compile(source).unwrap()
}

fn error_of(source: &str) -> ParseError {
    match try_compile(source) {
        Ok(_) => panic!("the source compiled"),
        Err(err) => err,
    }
}

fn call(engine: &mut Bleep, name: &str, args: Vec<Value>) -> Result<Value, RunError> {
    engine.call_function(&mut Arithmetic, &chars(name), args, 100_000)
}

fn run(source: &str, args: Vec<Value>) -> Result<Value, RunError> {
    call(&mut compile(source), "main", args)
}

#[test]
fn inner_declaration_shadows_outer() {
    let r = run("function main() { var x = 1; { var x = 2; return x; } }", vec![]);
    assert_eq!(r, Ok(num(2.0)));
}

#[test]
fn outer_variable_is_seen_after_inner_block() {
    let r = run("function main() { var x = 1; { var x = 2; } return x; }", vec![]);
    assert_eq!(r, Ok(num(1.0)));
}

#[test]
fn function_adds_one_to_its_argument() {
    let r = run("function main(a) { return a + 1; }", vec![num(41.0)]);
    assert_eq!(r, Ok(num(42.0)));
    let r = run(
        "function main(x) { var f = function(a){ return a + 1; }; return f(x); }",
        vec![num(41.0)],
    );
    assert_eq!(r, Ok(num(42.0)));
}

#[test]
fn vector_is_shared_between_variables() {
    let r = run(
        "function main() { var v = []; v[0] = 10; var w = v; w[0] = 20; return v[0]; }",
        vec![],
    );
    assert_eq!(r, Ok(num(20.0)));
}

#[test]
fn map_is_shared_between_variables() {
    let r = run(
        "function main() { var m = {a: 1}; var n = m; n[\"a\"] = 5; n[\"b\"] = 6; return m[\"a\"] + m[\"b\"]; }",
        vec![],
    );
    assert_eq!(r, Ok(num(11.0)));
}

#[test]
fn missing_argument_is_null() {
    let source = "function second(a, b) { return b; } function main() { return second(1); }";
    assert_eq!(run(source, vec![]), Ok(Value::Null));
}

#[test]
fn extra_argument_is_evaluated_and_dropped() {
    let source = "function one(a) { return a; }
        function main() { var n = 0; var r = one(1, n = 5); return r + n; }";
    assert_eq!(run(source, vec![]), Ok(num(6.0)));
}

#[test]
fn vector_index_past_the_end_is_out_of_range() {
    let r = run("function main() { var v = [1, 2, 3]; return v[5]; }", vec![]);
    assert_eq!(r, Err(RunError::IndexOutOfRange));
    let r = run("function main() { var v = [1, 2, 3]; return v[2]; }", vec![]);
    assert_eq!(r, Ok(num(3.0)));
    let r = run("function main() { var v = [1, 2, 3]; return v[2.9]; }", vec![]);
    assert_eq!(r, Ok(num(3.0)));
    let r = run("function main() { var v = [1, 2, 3]; return v[0 - 1]; }", vec![]);
    assert_eq!(r, Err(RunError::IndexOutOfRange));
    let r = run("function main() { var v = [1, 2, 3]; v[4] = 0; }", vec![]);
    assert_eq!(r, Err(RunError::IndexOutOfRange));
    let r = run("function main() { var v = [1, 2, 3]; return v[\"a\"]; }", vec![]);
    assert_eq!(r, Err(RunError::IndexOutOfRange));
}

#[test]
fn absent_map_key_is_not_found() {
    let r = run("function main() { var m = {a: 1}; return m[\"b\"]; }", vec![]);
    assert_eq!(r, Err(RunError::KeyNotFound));
    let r = run("function main() { var m = {}; m[3] = 4; return m[3]; }", vec![]);
    assert_eq!(r, Ok(num(4.0)));
}

#[test]
fn later_entry_of_a_map_literal_stays() {
    let r = run("function main() { var m = {a: 1, \"a\": 2}; return m[\"a\"]; }", vec![]);
    assert_eq!(r, Ok(num(2.0)));
}

#[test]
fn break_ends_the_loop_and_the_code_after_it_runs() {
    let source = "function main() {
        var i = 0; var n = 0;
        while (1) { if (i == 3) break; i = i + 1; n = n + 10; }
        return n + i;
    }";
    assert_eq!(run(source, vec![]), Ok(num(33.0)));
}

#[test]
fn break_ends_the_innermost_loop_only() {
    let source = "function main() {
        var i = 0; var n = 0;
        while (i < 3) {
            i = i + 1;
            while (1) { n = n + 1; break; n = n + 100; }
        }
        return n;
    }";
    assert_eq!(run(source, vec![]), Ok(num(3.0)));
}

#[test]
fn return_leaves_every_block_and_loop_of_the_call() {
    let source = "function inner() {
        var i = 0;
        while (1) { { while (1) { { i = i + 1; if (i == 4) return i; } } i = 100; } i = 200; }
        return 300;
    }
    function main() { return inner() + 1; }";
    assert_eq!(run(source, vec![]), Ok(num(5.0)));
}

#[test]
fn closure_sees_later_assignments_and_outlives_its_call() {
    let source = "function make() {
        var c = 0;
        var f = function() { c = c + 1; return c; };
        c = 10;
        return f;
    }
    function main() { var f = make(); f(); return f(); }";
    assert_eq!(run(source, vec![]), Ok(num(12.0)));
}

#[test]
fn closures_of_one_call_share_their_frame() {
    let source = "function main() {
        var n = 0;
        var up = function() { n = n + 1; };
        var get = function() { return n; };
        up(); up();
        return get();
    }";
    assert_eq!(run(source, vec![]), Ok(num(2.0)));
}

#[test]
fn scoping_is_lexical() {
    let source = "function show() { return x; }
        function main() { return 1; }";
    assert_eq!(error_of(source).kind, ParseErrorKind::UndeclaredVariable);
    let source = "function outer() { var x = 1; var f = function() { return x; }; return call(f); }
        function call(f) { var x = 2; return f(); }
        function main() { return outer(); }";
    assert_eq!(error_of(source).kind, ParseErrorKind::UndeclaredVariable);
    let source = "function call(f) { var x = 2; return f(); }
        function outer() { var x = 1; var f = function() { return x; }; return call(f); }
        function main() { return outer(); }";
    assert_eq!(run(source, vec![]), Ok(num(1.0)));
}

#[test]
fn operator_is_rebound_inside_a_scope_only() {
    let source = "function main() {
        var a = 1 + 2;
        { var __add = function(x, y) { return 42; }; a = a + 1000; }
        return a + 1;
    }";
    assert_eq!(run(source, vec![]), Ok(num(43.0)));
}

#[test]
fn prefix_operator_is_rebound_like_any_name() {
    let source = "function main() { var __neg = function(x) { return x + 1; }; return -5; }";
    assert_eq!(run(source, vec![]), Ok(num(6.0)));
    assert_eq!(run("function main() { return -5; }", vec![]), Ok(num(-5.0)));
    assert_eq!(run("function main() { return !0; }", vec![]), Ok(num(1.0)));
}

#[test]
fn operators_bind_by_level_and_to_the_left() {
    assert_eq!(run("function main() { return 1 + 2 * 3; }", vec![]), Ok(num(7.0)));
    assert_eq!(run("function main() { return (1 + 2) * 3; }", vec![]), Ok(num(9.0)));
    assert_eq!(run("function main() { return 10 - 4 - 3; }", vec![]), Ok(num(3.0)));
    assert_eq!(run("function main() { return 2 * 3 % 4; }", vec![]), Ok(num(2.0)));
    assert_eq!(run("function main() { return 1 + 1 == 2; }", vec![]), Ok(num(1.0)));
    assert_eq!(run("function main() { return 1 < 2 && 2 < 1; }", vec![]), Ok(num(0.0)));
    assert_eq!(run("function main() { return 0 || 1 && 0; }", vec![]), Ok(num(0.0)));
    assert_eq!(run("function main() { return -2 * 3; }", vec![]), Ok(num(-6.0)));
    assert_eq!(run("function main() { return 7 / 2; }", vec![]), Ok(num(3.5)));
    assert_eq!(run("function main() { return 0.5 + 0.25; }", vec![]), Ok(num(0.75)));
}

#[test]
fn assignment_associates_to_the_right_and_yields_its_value() {
    let source = "function main() { var a = 0; { var b = 0; a = b = 7; return a + b; } }";
    assert_eq!(run(source, vec![]), Ok(num(14.0)));
    let source = "function main() { 1 = 2; }";
    assert_eq!(error_of(source).kind, ParseErrorKind::UnexpectedToken);
}

#[test]
fn null_and_zero_are_false_and_everything_else_is_true() {
    let test = |e: &str| {
        run(&format!("function main(n) {{ if ({}) return 1; else return 2; }}", e), vec![])
    };
    assert_eq!(test("0"), Ok(num(2.0)));
    assert_eq!(test("0 - 0"), Ok(num(2.0)));
    assert_eq!(test("n"), Ok(num(2.0)));
    assert_eq!(test("3"), Ok(num(1.0)));
    assert_eq!(test("\"\""), Ok(num(1.0)));
    assert_eq!(test("[]"), Ok(num(1.0)));
    assert_eq!(test("{}"), Ok(num(1.0)));
    assert_eq!(test("main"), Ok(num(1.0)));
    assert_eq!(test("0 / 0"), Ok(num(1.0)));
}

#[test]
fn if_without_else_completes() {
    assert_eq!(run("function main() { if (0) return 1; return 2; }", vec![]), Ok(num(2.0)));
    assert_eq!(run("function main() { if (0) return 1; }", vec![]), Ok(Value::Null));
    assert_eq!(run("function main() { return; }", vec![]), Ok(Value::Null));
    assert_eq!(run("function main() { ; }", vec![]), Ok(Value::Null));
}

#[test]
fn calling_what_is_no_function_fails() {
    assert_eq!(run("function main() { var x = 1; return x(); }", vec![]), Err(RunError::NotCallable));
    let mut engine = compile("function main() { return 1; }");
    assert_eq!(call(&mut engine, "absent", vec![]), Err(RunError::NotCallable));
}

#[test]
fn indexing_what_is_no_container_fails() {
    assert_eq!(run("function main() { var x = 1; return x[0]; }", vec![]), Err(RunError::NotIndexable));
    assert_eq!(run("function main() { var x = 1; x[0] = 1; }", vec![]), Err(RunError::NotIndexable));
}

#[test]
fn native_errors_reach_the_host() {
    assert_eq!(run("function main() { return 1 + \"a\"; }", vec![]), Err(RunError::TypeMismatch));
    assert_eq!(run("function main() { fail(); return 1; }", vec![]), Err(RunError::Native(7)));
}

#[test]
fn endless_recursion_and_endless_loops_run_out_of_fuel() {
    let mut engine = compile("function main() { return main(); }");
    let r = engine.call_function(&mut Arithmetic, &chars("main"), vec![], 200);
    assert_eq!(r, Err(RunError::OutOfFuel));
    assert_eq!(run("function main() { while (1) { } }", vec![]), Err(RunError::OutOfFuel));
    let mut engine = compile("function main() { var i = 0; while (i < 5) i = i + 1; return i; }");
    let name = chars("main");
    assert_eq!(engine.call_function(&mut Arithmetic, &name, vec![], 6), Err(RunError::OutOfFuel));
    assert_eq!(engine.call_function(&mut Arithmetic, &name, vec![], 7), Ok(num(5.0)));
}

#[test]
fn recursion_computes_a_factorial() {
    let source = "function fact(n) { if (n < 2) return 1; return n * fact(n - 1); }
        function main() { return fact(10); }";
    assert_eq!(run(source, vec![]), Ok(num(3628800.0)));
}

#[test]
fn a_declared_function_may_call_itself_through_its_variable() {
    let source = "function main() {
        var down = function(n) { if (n == 0) return 0; return down(n - 1); };
        return down(5);
    }";
    assert_eq!(run(source, vec![]), Ok(num(0.0)));
}

#[test]
fn strings_are_equal_by_their_text() {
    assert_eq!(run("function main() { return \"ab\" == \"ab\"; }", vec![]), Ok(num(1.0)));
    assert_eq!(run("function main() { return \"ab\" == \"ac\"; }", vec![]), Ok(num(0.0)));
    let mut engine = compile("function main() { return \"a\\n\\\"b\\\\\"; }");
    match call(&mut engine, "main", vec![]) {
        Ok(Value::Str(h)) => {
            assert_eq!(engine.store().string_text(h), Some(chars("a\n\"b\\")));
        }
        other => panic!("{:?}", other),
    }
}

#[test]
fn host_can_hand_containers_to_a_script() {
    let mut engine = compile("function main(m) { m[\"seen\"] = m[\"test\"] + 1; return m; }");
    let map = engine.new_map();
    let key = engine.new_string(chars("test"));
    assert_eq!(engine.set_element(map, key, num(33.0)), Ok(()));
    assert_eq!(call(&mut engine, "main", vec![map]), Ok(map));
    let seen = engine.new_string(chars("seen"));
    assert_eq!(engine.get_element(map, seen), Ok(num(34.0)));
    let items = engine.new_vector(vec![num(1.0)]);
    assert_eq!(engine.get_element(items, num(0.0)), Ok(num(1.0)));
}

#[test]
fn globals_are_set_and_read_by_name() {
    let mut engine = Bleep::new();
    assert_eq!(engine.get_var(&chars("__add")), Some(Value::Native(8)));
    assert_eq!(engine.get_var(&chars("__not")), Some(Value::Native(14)));
    assert_eq!(engine.get_var(&chars("limit")), None);
    engine.set_var(chars("limit"), num(3.0));
    assert_eq!(engine.get_var(&chars("limit")), Some(num(3.0)));
    engine.set_var(chars("limit"), num(4.0));
    assert_eq!(engine.get_var(&chars("limit")), Some(num(4.0)));
    let mut reader = CharReader::new(chars("function main() { limit = limit + 0; return limit; }"));
    let mut engine = engine.compile(&mut reader).unwrap();
    assert_eq!(engine.number_count(), 1);
    assert_eq!(engine.number_text(0), Some(chars("0")));
    assert_eq!(engine.number_text(1), None);
    assert!(!engine.set_number(1, 0));
    assert_eq!(call(&mut engine, "main", vec![]), Ok(num(4.0)));
    assert!(matches!(engine.get_var(&chars("main")), Some(Value::Closure(0, 0))));
}

#[test]
fn errors_of_the_source_carry_their_place() {
    let e = error_of("function main() {\n  return y;\n}");
    assert_eq!(e, ParseError { kind: ParseErrorKind::UndeclaredVariable, line: 2, col: 10 });
    let e = error_of("function main(a, a) { }");
    assert_eq!(e, ParseError { kind: ParseErrorKind::DuplicateDeclaration, line: 1, col: 18 });
    let e = error_of("function main(a) { var a; }");
    assert_eq!(e, ParseError { kind: ParseErrorKind::DuplicateDeclaration, line: 1, col: 24 });
    assert_eq!(run("function main() { var a; var a = 1; return a; }", vec![]), Ok(num(1.0)));
    let e = error_of("function main() { return \"abc; }");
    assert_eq!(e, ParseError { kind: ParseErrorKind::UnterminatedLiteral, line: 1, col: 26 });
    let e = error_of("function main() { return 1 +; }");
    assert_eq!(e, ParseError { kind: ParseErrorKind::UnexpectedToken, line: 1, col: 29 });
    let e = error_of("function main() { return 1 $ 2; }");
    assert_eq!(e, ParseError { kind: ParseErrorKind::UnexpectedToken, line: 1, col: 28 });
    let e = error_of("function main() { return 1.; }");
    assert_eq!(e, ParseError { kind: ParseErrorKind::UnexpectedToken, line: 1, col: 26 });
    let e = error_of("function main() { return 1");
    assert_eq!(e, ParseError { kind: ParseErrorKind::UnexpectedToken, line: 1, col: 27 });
    let e = error_of("var x;");
    assert_eq!(e, ParseError { kind: ParseErrorKind::UnexpectedToken, line: 1, col: 1 });
    let e = error_of("function main() { }\nfunction main() { }");
    assert_eq!(e, ParseError { kind: ParseErrorKind::DuplicateDeclaration, line: 2, col: 10 });
}

#[test]
fn program_is_rendered_with_addresses() {
    let engine = compile(
        "function main(a, b) {\n  var v = [1, \"x\"];\n  if (a < b) { v[0] = -a; } else return {k: a};\n  while (a) break;\n  return main(b, 2.5);\n}",
    );
    let text: String = engine.dump_bytecode().into_iter().collect();
    let expected = "0: function (<0@0>, <1@0>) {
  var <2@0> = [1, \"x\"];
  if ((<0@0> <4:1> <1@0>)) {
    <2@1>[0] = ( <13:2> <0@1>);
  } else return {\"k\": <0@0>};
  while (<0@0>) break;
  return <16@1>(<1@0>, 2.5);
}
";
    assert_eq!(text, expected);
}

#[test]
fn nested_function_is_rendered_in_place() {
    let engine = compile("function main() { var f = function(x) { return x; }; ; }");
    let text: String = engine.dump_bytecode().into_iter().collect();
    let expected = "0: function (<0@0>) {
  return <0@0>;
}
1: function () {
  var <0@0> = function (<0@0>) {
    return <0@0>;
  };
  ;
}
";
    assert_eq!(text, expected);
}

#[test]
fn whole_number_literals_need_no_host() {
    let mut reader = CharReader::new(chars(
        "function main() { var v = [10, 20, 30]; v[3] = 9007199254740991; return v; }
         function other() { return [0, 007, 1.5, 9007199254740992, 12345678901234567890123]; }",
    ));
    let mut engine = Bleep::new().compile(&mut reader).unwrap();
    let v = call(&mut engine, "main", vec![]).unwrap();
    assert_eq!(engine.get_element(v, num(1.0)), Ok(num(20.0)));
    assert_eq!(engine.get_element(v, num(3.0)), Ok(num(9007199254740991.0)));
    let w = call(&mut engine, "other", vec![]).unwrap();
    assert_eq!(engine.get_element(w, num(0.0)), Ok(num(0.0)));
    assert_eq!(engine.get_element(w, num(1.0)), Ok(num(7.0)));
    assert_eq!(engine.get_element(w, num(2.0)), Ok(num(0.0)));
    assert_eq!(engine.get_element(w, num(3.0)), Ok(num(0.0)));
    assert_eq!(engine.get_element(w, num(4.0)), Ok(num(0.0)));
    assert_eq!(engine.number_text(7), Some(chars("1.5")));
    assert!(engine.set_number(7, 1.5f64.to_bits()));
    let w = call(&mut engine, "other", vec![]).unwrap();
    assert_eq!(engine.get_element(w, num(2.0)), Ok(num(1.5)));
}
