use spoodly::{parse, parse_tokens, Num, ParseError, Raw, Token};
use spoodly::Node::{self, Assign, Block, Call, Value};

fn num(n: i64) -> Node {
    Value(Raw::Number(Num::from_int(n)))
}

#[test]
fn test_parse() {
    assert_eq!(
        parse("s <- 3"),
        Ok(Assign("s".to_string(), Box::new(num(3)))),
    );

    assert_eq!(
        parse("s<-3"),
        Ok(Assign("s".to_string(), Box::new(num(3)))),
    );

    assert_eq!(
        parse("3+2+7"),
        Ok(Call(
            "+".to_string(),
            vec![
                Call("+".to_string(), vec![num(3), num(2)]),
                num(7),
            ]
        )),
    );

    assert_eq!(
        parse("s<-3+2+7"),
        Ok(Assign(
            "s".to_string(),
            Box::new(Call(
                "+".to_string(),
                vec![
                    Call("+".to_string(), vec![num(3), num(2)]),
                    num(7),
                ]
            )),
        ))
    );

    assert_eq!(
        parse("100 - 42 + 1"),
        Ok(Call(
            "+".to_string(),
            vec![
                Call("-".to_string(), vec![num(100), num(42)]),
                num(1),
            ]
        )),
    );

    assert_eq!(
        parse(
            "s <- 3
             DISPLAY(s)"
        ),
        Ok(Block(vec![
            Assign("s".to_string(), Box::new(num(3))),
            Call("DISPLAY".to_string(), vec![Node::Var("s".to_string())]),
        ])),
    );

    assert_eq!(
        parse(
            "\
            s <- 3
            l <- 4
            a <- 1
            s <- a + 5
            l <- a
            a <- a + 3
            DISPLAY(s)
            DISPLAY(l)
            DISPLAY(a)\
        "
        ),
        Ok(Block(vec![
            Assign("s".to_string(), Box::new(num(3))),
            Assign("l".to_string(), Box::new(num(4))),
            Assign("a".to_string(), Box::new(num(1))),
            Assign(
                "s".to_string(),
                Box::new(Call(
                    "+".to_string(),
                    vec![Node::Var("a".to_string()), num(5)],
                ))
            ),
            Assign("l".to_string(), Box::new(Node::Var("a".to_string()))),
            Assign(
                "a".to_string(),
                Box::new(Call(
                    "+".to_string(),
                    vec![Node::Var("a".to_string()), num(3)],
                ))
            ),
            Call("DISPLAY".to_string(), vec![Node::Var("s".to_string())]),
            Call("DISPLAY".to_string(), vec![Node::Var("l".to_string())]),
            Call("DISPLAY".to_string(), vec![Node::Var("a".to_string())]),
        ])),
    );
}

#[test]
fn parsing_is_referentially_transparent() {
    let src = "s<-3+2+7\nDISPLAY(s)";
    assert_eq!(parse(src), parse(src));
    let bad = "DISPLAY(\"hi)";
    assert_eq!(parse(bad), parse(bad));
}

#[test]
fn parse_failures() {
    assert_eq!(parse("DISPLAY(\"hi)"), Err(ParseError::UnterminatedString));
    assert_eq!(parse("{"), Err(ParseError::UnexpectedEnd));
    assert_eq!(parse("+"), Err(ParseError::MissingLeftOperand));
    assert_eq!(parse("3+"), Err(ParseError::MissingRightOperand));
}

#[test]
fn parse_failures_on_raw_token_streams() {
    assert_eq!(parse_tokens(vec![]), Err(ParseError::EmptySource));
    assert_eq!(
        parse_tokens(vec![Token::Identifier("x".to_string())]),
        Err(ParseError::DanglingIdentifier),
    );
    assert_eq!(
        parse_tokens(vec![Token::Identifier("x".to_string()), Token::StorageArrow]),
        Err(ParseError::MissingAssignValue),
    );
    assert_eq!(parse_tokens(vec![Token::LambdaStart]), Err(ParseError::MissingLambdaBody));
    assert_eq!(
        parse_tokens(vec![
            Token::LambdaStart,
            Token::Identifier("x".to_string()),
            Token::Identifier("y".to_string()),
        ]),
        Ok(Node::Lambda(Box::new(Node::Var("x".to_string())))),
    );
}
