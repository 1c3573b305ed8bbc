use spoodly::{
    interpret, interpret_with_host, Context, Evaluator, Node, Num, Raw, Var,
};

fn run(src: &str) -> Result<Var, String> {
    interpret(src, Context::standard())
}

fn number(n: i64) -> Var {
    Var::Raw(Raw::Number(Num::from_int(n)))
}

fn text(t: &str) -> Var {
    Var::Raw(Raw::Text(t.to_string()))
}

#[test]
fn arithmetic_left_association() {
    assert_eq!(run("3+2+7"), Ok(number(12)));
}

#[test]
fn precedence_is_a_pure_left_fold() {
    assert_eq!(run("3/2*4 + 1 MOD 6"), Ok(number(1)));
    // ((100 - 42) + 1), never 100 - (42 + 1)
    assert_eq!(run("100 - 42 + 1"), Ok(number(59)));
}

#[test]
fn assignment_display_round_trip() {
    let (result, outputs) =
        interpret_with_host("s<-3+2+7\nDISPLAY(s)", Context::standard(), Vec::new());
    assert!(result.is_ok());
    assert_eq!(outputs, vec!["12".to_string()]);
}

#[test]
fn nested_block_shadowing_preserves_outer_binding() {
    // s is reassigned inside a nested block; the outer binding is intact
    // after the block exits.
    let ast = vec![Node::Block(vec![
        Node::Assign("s".to_string(), Box::new(Node::Value(Raw::Number(Num::from_int(3))))),
        Node::Block(vec![
            Node::Assign("s".to_string(), Box::new(Node::Value(Raw::Number(Num::from_int(5))))),
            Node::Call("DISPLAY".to_string(), vec![Node::Var("s".to_string())]),
        ]),
        Node::Call("DISPLAY".to_string(), vec![Node::Var("s".to_string())]),
    ])];
    let mut ev = Evaluator::new(Context::standard());
    ev.eval(ast, 0).expect("error evaluating");
    assert_eq!(ev.outputs(), &vec!["5".to_string(), "3".to_string()]);
}

#[test]
fn braced_block_shadowing_from_source() {
    // the braced block reassigns s in its own fresh scope; the outer
    // binding still holds 3 when DISPLAY reads it afterwards
    let (result, outputs) = interpret_with_host(
        "s <- 3\n{\ns <- 5\n}\nDISPLAY(s)",
        Context::standard(),
        Vec::new(),
    );
    assert!(result.is_ok());
    assert_eq!(outputs, vec!["3".to_string()]);
}

#[test]
fn every_operator_is_an_ordinary_identifier_lookup() {
    // `^` lexes as a binary operator but the standard scope does not bind
    // it, so the call fails exactly like any unknown identifier
    assert_eq!(run("2^3"), Err("couldn't find variable with identifier ^".to_string()));
}

#[test]
fn same_scope_assignment_overwrites() {
    let (result, outputs) = interpret_with_host(
        "s <- 3\ns <- 4\nDISPLAY(s)",
        Context::standard(),
        Vec::new(),
    );
    assert!(result.is_ok());
    assert_eq!(outputs, vec!["4".to_string()]);
}

#[test]
fn equality_is_type_shape_matched() {
    assert_eq!(run("3 = 4"), Ok(Var::Raw(Raw::Bool(false))));
    assert_eq!(run("\"hi\" = \"hi\""), Ok(Var::Raw(Raw::Bool(true))));
    assert_eq!(run("true = false"), Ok(Var::Raw(Raw::Bool(false))));
    // cross-type comparison is never a hard error: it falls through to the
    // soft diagnostic value
    assert_eq!(
        run("3 = \"hi\""),
        Ok(text("Can only apply the equals operation to numbers, booleans or strings!")),
    );
}

#[test]
fn trailing_displays_make_the_block_value() {
    // three assignments, then two displays: the program's value is the list
    // of the two displayed values, in statement order
    assert_eq!(
        run("a <- 1\nb <- 2\nc <- 3\nDISPLAY(a)\nDISPLAY(c)"),
        Ok(Var::List(vec![text("1"), text("3")])),
    );
    // a single trailing display collapses to the one displayed value
    assert_eq!(run("a <- 1\nDISPLAY(a)"), Ok(text("1")));
}

#[test]
fn unterminated_string_is_a_hard_error() {
    assert_eq!(run("DISPLAY(\"hi)"), Err("unterminated string literal".to_string()));
}

#[test]
fn hard_error_messages() {
    assert_eq!(
        run("DISPLAY(x)"),
        Err("couldn't find variable with identifier x".to_string()),
    );
    assert_eq!(run("s <- 3\ns(1)"), Err("only functions can be called".to_string()));
    assert_eq!(
        run("x <- DISPLAY"),
        Err("variable DISPLAY doesn't hold a plain value".to_string()),
    );
    assert_eq!(run("INPUT()"), Err("no input is available".to_string()));
}

#[test]
fn input_consumes_queued_lines_in_order() {
    let (result, outputs) = interpret_with_host(
        "DISPLAY(INPUT())\nDISPLAY(INPUT())",
        Context::standard(),
        vec!["first".to_string(), "second".to_string()],
    );
    assert!(result.is_ok());
    assert_eq!(outputs, vec!["\"first\"".to_string(), "\"second\"".to_string()]);
}

#[test]
fn soft_failures_are_values_not_errors() {
    assert_eq!(run("3/0"), Ok(text("Can't divide by zero!")));
    assert_eq!(run("3 MOD 0"), Ok(text("Can't take MOD by zero!")));
    assert_eq!(
        run("9223372036854775807+1"),
        Ok(text("The result is out of range!")),
    );
    assert_eq!(
        run("true + false"),
        Ok(text("Can only apply the add operation to numbers or strings!")),
    );
    assert_eq!(
        run("AND(1, 2)"),
        Ok(text("Can only apply the AND operation to booleans!")),
    );
}

#[test]
fn operators_resolve_through_the_scope_chain() {
    // the call site looks `+` up like any identifier; a rebinding in the
    // same scope shadows the builtin, and a non-function binding makes the
    // call fail
    let ast = vec![Node::Block(vec![
        Node::Assign("+".to_string(), Box::new(Node::Value(Raw::Number(Num::from_int(3))))),
        Node::Call("+".to_string(), vec![
            Node::Value(Raw::Number(Num::from_int(1))),
            Node::Value(Raw::Number(Num::from_int(2))),
        ]),
    ])];
    let mut ev = Evaluator::new(Context::standard());
    assert!(ev.eval(ast, 0).is_err());
}

#[test]
fn lambda_nodes_defer_evaluation() {
    // a lambda wraps its node unevaluated; displaying it is an error rather
    // than a silent default
    let ast = vec![Node::Call(
        "DISPLAY".to_string(),
        vec![Node::Lambda(Box::new(Node::Var("x".to_string())))],
    )];
    let mut ev = Evaluator::new(Context::standard());
    assert_eq!(
        ev.eval(ast, 0).unwrap_err(),
        spoodly::EvalError::NotDisplayable,
    );
}

#[test]
fn value_coercions() {
    assert_eq!(Var::Raw(Raw::Text("x".to_string())).number().unwrap_err(),
        "Can't coerce Text into number".to_string());
    assert_eq!(Var::Raw(Raw::Bool(true)).number().unwrap_err(),
        "Can't coerce Bool into number".to_string());
    assert_eq!(number(7).string().unwrap(), "7".to_string());
    assert_eq!(Var::Raw(Raw::Bool(false)).string().unwrap(), "false".to_string());
    assert_eq!(number(7).boolean().unwrap_err(), "Can't turn Number into bool".to_string());
    assert_eq!(Var::Raw(Raw::Bool(true)).boolean().unwrap(), true);

    let params = spoodly::Parameters(vec![number(1), number(2)]);
    let nums = params.numbers().unwrap();
    assert_eq!(nums, vec![Num::from_int(1), Num::from_int(2)]);
    let mixed = spoodly::Parameters(vec![number(1), text("x")]);
    assert!(mixed.numbers().is_err());
    assert_eq!(mixed.strings().unwrap(), vec!["1".to_string(), "x".to_string()]);
    assert!(spoodly::Parameters(vec![Var::Raw(Raw::Bool(true))]).booleans().unwrap()[0]);
}

#[test]
fn list_rendering() {
    let v = Var::List(vec![number(1), text("a"), Var::Raw(Raw::Bool(true))]);
    assert_eq!(v.text().unwrap(), "[1, \"a\", true]".to_string());
    assert!(Var::Function(spoodly::Builtin::Add).text().is_none());

    let mut host = spoodly::Host { output: Vec::new(), input: Vec::new() };
    let f = Var::Function(spoodly::Builtin::Add);
    let got = f.fn_call(&vec![number(2), number(3)], &mut host);
    assert_eq!(got.unwrap(), number(5));
    assert_eq!(
        number(1).fn_call(&vec![], &mut host),
        Err(spoodly::EvalError::NotCallable),
    );
}

#[test]
fn numbers_compare_and_compute_exactly() {
    let half = Num::from_int(1).div(&Num::from_int(2)).unwrap();
    let quarter = Num::from_int(1).div(&Num::from_int(4)).unwrap();
    assert_eq!(half.add(&quarter), Num::from_int(3).div(&Num::from_int(4)));
    assert_eq!(half.mul(&half), Some(quarter));
    assert_eq!(half.sub(&quarter), Some(quarter));
    assert!(quarter.lt_value(&half));
    assert!(half.eq_value(&half));
    assert_eq!(half.numerator(), 1);
    assert_eq!(half.denominator(), 2);
    // MOD truncates toward zero, as the host numeric type's `%` does
    let seven = Num::from_int(7);
    let six = Num::from_int(6);
    assert_eq!(seven.rem(&six), Some(Num::from_int(1)));
    assert_eq!(Num::from_int(-7).rem(&six), Some(Num::from_int(-1)));
}

#[test]
fn interpret_reports_value_or_message() {
    assert_eq!(run("DISPLAY(3)"), Ok(text("3")));
    assert_eq!(run("(1, 2)"), Ok(Var::List(vec![number(1), number(2)])));
    let empty = Node::new_block();
    assert_eq!(empty, Node::Block(Vec::new()));
}
