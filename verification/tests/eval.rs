use spoodly::{parse, Context, Evaluator, Node, Num, Raw};

/// Runs a source string against the standard scope and returns everything it
/// displayed, each line followed by one space, as the host shell prints it.
fn eval(source: &str) -> String {
    eval_ast(vec![parse(source).expect("couldn't parse source in eval test")])
}

fn eval_ast(ast: Vec<Node>) -> String {
    let mut evaluator = Evaluator::new(Context::standard());
    evaluator.eval(ast, 0).expect("error evaluating");
    let mut stdout = String::new();
    for line in evaluator.outputs() {
        stdout.push_str(line);
        stdout.push(' ');
    }
    stdout
}

#[test]
fn test_eval() {
    assert_eq!(eval("DISPLAY(3)"), "3 ".to_string());

    assert_eq!(eval("3+2+7"), "".to_string());

    assert_eq!(
        eval(
            "s<-3+2+7
             DISPLAY(s)"
        ),
        "12 ".to_string(),
    );

    assert_eq!(
        eval_ast(vec![Node::Call(
            "DISPLAY".to_string(),
            vec![Node::Value(Raw::Number(Num::from_int(-3)))],
        )]),
        "-3 ".to_string(),
    );

    assert_eq!(eval("DISPLAY(3+2-7)"), "-2 ".to_string(),);

    assert_eq!(eval("DISPLAY(3/2*4 + 1 MOD 6)"), "1 ".to_string(),);

    assert_eq!(eval("DISPLAY(3 = 4)"), "false ".to_string(),);
    assert_eq!(eval("DISPLAY(4 = 4)"), "true ".to_string(),);
    assert_eq!(eval("DISPLAY(\"hi\" = \"no\")"), "false ".to_string(),);
    assert_eq!(eval("DISPLAY(\"hi\" = \"hi\")"), "true ".to_string(),);
    assert_eq!(eval("DISPLAY(true = false)"), "false ".to_string(),);
    assert_eq!(eval("DISPLAY(false = true)"), "false ".to_string(),);
    assert_eq!(eval("DISPLAY(true = true)"), "true ".to_string(),);
    assert_eq!(eval("DISPLAY(false = false)"), "true ".to_string(),);

    assert_eq!(eval("DISPLAY(3 > 4)"), "false ".to_string(),);
    assert_eq!(eval("DISPLAY(3 < 4)"), "true ".to_string(),);
    assert_eq!(eval("DISPLAY(3<4)"), "true ".to_string(),);

    assert_eq!(
        eval(
            "\
            s <- 3
            l <- 4
            a <- 1
            s <- a + 5+4  + 4
            l <- a
            a <- a + 3
            DISPLAY(s)
            DISPLAY(l)
            DISPLAY(a)\
        "
        ),
        "14 1 4 ".to_string()
    )
}

#[test]
fn boolean_operators_and_text() {
    assert_eq!(eval("DISPLAY(AND(true, false))"), "false ".to_string());
    assert_eq!(eval("DISPLAY(OR(true, false))"), "true ".to_string());
    assert_eq!(eval("DISPLAY(\"hi\")"), "\"hi\" ".to_string());
    assert_eq!(eval("DISPLAY(\"ab\" + \"cd\")"), "\"abcd\" ".to_string());
}

#[test]
fn display_joins_arguments_left_to_right() {
    assert_eq!(eval("DISPLAY(1, 2, 3)"), "1 2 3 ".to_string());
}

#[test]
fn numbers_are_exact_rationals() {
    assert_eq!(eval("DISPLAY(3/2)"), "3/2 ".to_string());
    assert_eq!(eval("DISPLAY((1/3) + (1/6))"), "1/2 ".to_string());
    assert_eq!(eval("DISPLAY(10/4)"), "5/2 ".to_string());
    assert_eq!(eval("DISPLAY(3/2 * 2)"), "3 ".to_string());
}
