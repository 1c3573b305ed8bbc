//! The parser: a recursive descent over the token sequence.
//!
//! The grammar is precedence-free: every binary operator folds strictly to
//! the left, taking the previously parsed node as its left operand and the
//! next parsed node as its right one, and becomes a plain two-argument call.
//! A block containing exactly one statement collapses to that statement.

use vstd::prelude::*;
use crate::ast::{Node, NodeModel, Raw, RawModel, nodes_view, node_view, lemma_nodes_view,
    lemma_nodes_view_push};
use crate::lex::{spec_tokenize, tokenize};
use crate::token::{Token, TokenModel, tokens_view};

verus! {

/// Why a parse fails.  Each variant is fatal and ends the whole parse.
#[derive(Debug, Clone, Copy, PartialEq, Eq)]
pub enum ParseError {
    /// The lexer found a string literal that never closes.
    UnterminatedString,
    /// A block was still open when the tokens ran out.
    UnexpectedEnd,
    /// An identifier stood as the very last token, with nothing after it.
    DanglingIdentifier,
    /// A storage arrow with nothing to assign after it.
    MissingAssignValue,
    /// A call with nothing where its argument list should stand.
    MissingCallArguments,
    /// The node after a called identifier was not an argument list.
    ArgumentsNotAList,
    /// A binary operator with no node before it.
    MissingLeftOperand,
    /// A binary operator with nothing after it.
    MissingRightOperand,
    /// A lambda marker with nothing after it.
    MissingLambdaBody,
    /// The source parsed to no node at all.
    EmptySource,
}

/// The message a parse failure is reported with.
pub open spec fn parse_err_text(e: ParseError) -> Seq<char> {
    match e {
        ParseError::UnterminatedString => "unterminated string literal"@,
        ParseError::UnexpectedEnd => "a block was still open when the tokens ran out"@,
        ParseError::DanglingIdentifier => "an identifier stands at the very end with nothing after it"@,
        ParseError::MissingAssignValue => "an assignment arrow has nothing after it"@,
        ParseError::MissingCallArguments => "a call has no argument list"@,
        ParseError::ArgumentsNotAList => "Only Lists can be used as function arguments"@,
        ParseError::MissingLeftOperand => "a binary operator has no left operand"@,
        ParseError::MissingRightOperand => "a binary operator has nothing after it"@,
        ParseError::MissingLambdaBody => "a lambda marker has nothing after it"@,
        ParseError::EmptySource => "the source holds no statement"@,
    }
}

impl ParseError {
    /// The message this failure is reported with.
    pub fn message(&self) -> (r: String)
        ensures
            r@ == parse_err_text(*self),
    {
        match self {
            ParseError::UnterminatedString => String::from_str("unterminated string literal"),
            ParseError::UnexpectedEnd => String::from_str(
                "a block was still open when the tokens ran out",
            ),
            ParseError::DanglingIdentifier => String::from_str(
                "an identifier stands at the very end with nothing after it",
            ),
            ParseError::MissingAssignValue => String::from_str(
                "an assignment arrow has nothing after it",
            ),
            ParseError::MissingCallArguments => String::from_str("a call has no argument list"),
            ParseError::ArgumentsNotAList => String::from_str(
                "Only Lists can be used as function arguments",
            ),
            ParseError::MissingLeftOperand => String::from_str(
                "a binary operator has no left operand",
            ),
            ParseError::MissingRightOperand => String::from_str(
                "a binary operator has nothing after it",
            ),
            ParseError::MissingLambdaBody => String::from_str(
                "a lambda marker has nothing after it",
            ),
            ParseError::EmptySource => String::from_str("the source holds no statement"),
        }
    }
}

/// A block of exactly one statement collapses to that statement; everything
/// else stands as it is.
pub open spec fn collapse_node(n: NodeModel) -> NodeModel {
    match n {
        NodeModel::Block(ch) => if ch.len() == 1 {
            ch[0]
        } else {
            n
        },
        _ => n,
    }
}

/// Parse one step at position `i`: consume one token and whatever it opens,
/// and return the next position together with the new accumulated statement
/// list.  A binary operator consumes the last accumulated node as its left
/// operand.
pub open spec fn parse_one(toks: Seq<TokenModel>, i: int, acc: Seq<NodeModel>) -> Result<
    (int, Seq<NodeModel>),
    ParseError,
>
    decreases toks.len() - i, 0int,
{
    if !(0 <= i < toks.len()) {
        Ok((i, acc))
    } else {
        let t = toks[i];
        match t {
            TokenModel::BlockOpen => match parse_until_close(toks, i + 1, Seq::empty()) {
                Ok((i2, inner)) => Ok((i2, acc.push(collapse_node(NodeModel::Block(inner))))),
                Err(e) => Err(e),
            },
            TokenModel::ArgsOpen => match parse_until_close(toks, i + 1, Seq::empty()) {
                Ok((i2, inner)) => Ok((i2, acc.push(NodeModel::List(inner)))),
                Err(e) => Err(e),
            },
            TokenModel::Identifier(id) => {
                if i + 1 >= toks.len() {
                    Err(ParseError::DanglingIdentifier)
                } else {
                    match toks[i + 1] {
                        TokenModel::StorageArrow => match parse_one(toks, i + 2, Seq::empty()) {
                            Ok((i2, sub)) => if sub.len() == 0 {
                                Err(ParseError::MissingAssignValue)
                            } else {
                                Ok((i2, acc.push(NodeModel::Assign(id, Box::new(sub.last())))))
                            },
                            Err(e) => Err(e),
                        },
                        TokenModel::ArgsOpen => match parse_one(toks, i + 1, Seq::empty()) {
                            Ok((i2, sub)) => if sub.len() == 0 {
                                Err(ParseError::MissingCallArguments)
                            } else {
                                match sub.last() {
                                    NodeModel::List(items) => Ok(
                                        (i2, acc.push(NodeModel::Call(id, items))),
                                    ),
                                    _ => Err(ParseError::ArgumentsNotAList),
                                }
                            },
                            Err(e) => Err(e),
                        },
                        _ => Ok((i + 1, acc.push(NodeModel::Var(id)))),
                    }
                }
            },
            TokenModel::LambdaStart => match parse_one(toks, i + 1, Seq::empty()) {
                Ok((i2, sub)) => if sub.len() == 0 {
                    Err(ParseError::MissingLambdaBody)
                } else {
                    Ok((i2, acc.push(NodeModel::Lambda(Box::new(sub.last())))))
                },
                Err(e) => Err(e),
            },
            TokenModel::StringLiteral(text) => Ok(
                (i + 1, acc.push(NodeModel::Value(RawModel::Text(text)))),
            ),
            TokenModel::Number(v) => Ok((i + 1, acc.push(NodeModel::Value(RawModel::Number(v))))),
            TokenModel::BinaryOperation(op) => {
                if acc.len() == 0 {
                    Err(ParseError::MissingLeftOperand)
                } else {
                    match parse_one(toks, i + 1, Seq::empty()) {
                        Ok((i2, sub)) => if sub.len() == 0 {
                            Err(ParseError::MissingRightOperand)
                        } else {
                            Ok(
                                (
                                    i2,
                                    acc.drop_last().push(
                                        NodeModel::Call(op, seq![acc.last(), sub.last()]),
                                    ),
                                ),
                            )
                        },
                        Err(e) => Err(e),
                    }
                }
            },
            _ => Ok((i + 1, acc)),
        }
    }
}

/// Parse statements until the block or argument list that is open closes.
/// Running out of tokens first is the `UnexpectedEnd` failure.
pub open spec fn parse_until_close(toks: Seq<TokenModel>, i: int, acc: Seq<NodeModel>) -> Result<
    (int, Seq<NodeModel>),
    ParseError,
>
    decreases toks.len() - i, 1int,
{
    if !(0 <= i < toks.len()) {
        Err(ParseError::UnexpectedEnd)
    } else if toks[i] is BlockClose || toks[i] is ArgsClose {
        Ok((i + 1, acc))
    } else {
        match parse_one(toks, i, acc) {
            Ok((i2, acc2)) => if i < i2 <= toks.len() {
                parse_until_close(toks, i2, acc2)
            } else {
                Err(ParseError::UnexpectedEnd)
            },
            Err(e) => Err(e),
        }
    }
}

/// One parse step never moves backward, never runs past the end, and always
/// consumes at least one token when one is there.
pub proof fn lemma_parse_one_advances(toks: Seq<TokenModel>, i: int, acc: Seq<NodeModel>)
    requires
        0 <= i <= toks.len(),
    ensures
        match parse_one(toks, i, acc) {
            Ok((i2, acc2)) => i <= i2 <= toks.len() && (i < toks.len() ==> i < i2),
            Err(e) => true,
        },
    decreases toks.len() - i, 0int,
{
    if 0 <= i < toks.len() {
        let t = toks[i];
        match t {
            TokenModel::BlockOpen => {
                lemma_parse_until_close_advances(toks, i + 1, Seq::empty());
            },
            TokenModel::ArgsOpen => {
                lemma_parse_until_close_advances(toks, i + 1, Seq::empty());
            },
            TokenModel::Identifier(id) => {
                if i + 1 < toks.len() {
                    match toks[i + 1] {
                        TokenModel::StorageArrow => {
                            lemma_parse_one_advances(toks, i + 2, Seq::empty());
                        },
                        TokenModel::ArgsOpen => {
                            lemma_parse_one_advances(toks, i + 1, Seq::empty());
                        },
                        _ => {},
                    }
                }
            },
            TokenModel::LambdaStart => {
                lemma_parse_one_advances(toks, i + 1, Seq::empty());
            },
            TokenModel::BinaryOperation(op) => {
                if acc.len() > 0 {
                    lemma_parse_one_advances(toks, i + 1, Seq::empty());
                }
            },
            _ => {},
        }
    }
}

/// Parsing to a close consumes at least the closing token and never runs
/// past the end.
pub proof fn lemma_parse_until_close_advances(toks: Seq<TokenModel>, i: int, acc: Seq<NodeModel>)
    requires
        0 <= i <= toks.len(),
    ensures
        match parse_until_close(toks, i, acc) {
            Ok((i2, acc2)) => i < i2 <= toks.len(),
            Err(e) => true,
        },
    decreases toks.len() - i, 1int,
{
    if 0 <= i < toks.len() {
        if toks[i] is BlockClose || toks[i] is ArgsClose {
        } else {
            lemma_parse_one_advances(toks, i, acc);
            match parse_one(toks, i, acc) {
                Ok((i2, acc2)) => {
                    if i < i2 <= toks.len() {
                        lemma_parse_until_close_advances(toks, i2, acc2);
                    }
                },
                Err(e) => {},
            }
        }
    }
}

/// Whether this token closes a block or an argument list.
fn is_close(t: &Token) -> (b: bool)
    ensures
        b == (t@ is BlockClose || t@ is ArgsClose),
{
    matches!(t, Token::BlockClose | Token::ArgsClose)
}

/// A parser consumes a sequence of tokens through a cursor and builds the
/// abstract syntax tree.
struct Parser {
    tokens: Vec<Token>,
    pos: usize,
}

impl Parser {
    /// A parser over the given tokens, at their start.
    fn new(tokens: Vec<Token>) -> (p: Parser)
        ensures
            p.tokens@ == tokens@,
            p.pos == 0,
    {
        Parser { tokens, pos: 0 }
    }

    /// One parse step: consume the token at the cursor and whatever it
    /// opens, extending the accumulated statement list `ast`.
    #[verifier::loop_isolation(false)]
    fn parse(&mut self, ast: Vec<Node>) -> (r: Result<Vec<Node>, ParseError>)
        requires
            old(self).pos <= old(self).tokens@.len(),
        ensures
            final(self).tokens == old(self).tokens,
            final(self).pos <= final(self).tokens@.len(),
            match r {
                Ok(out) => parse_one(
                    tokens_view(old(self).tokens@),
                    old(self).pos as int,
                    nodes_view(ast@),
                ) == Ok::<(int, Seq<NodeModel>), ParseError>(
                    (final(self).pos as int, nodes_view(out@)),
                ),
                Err(e) => parse_one(
                    tokens_view(old(self).tokens@),
                    old(self).pos as int,
                    nodes_view(ast@),
                ) == Err::<(int, Seq<NodeModel>), ParseError>(e),
            },
        decreases self.tokens@.len() - self.pos,
    {
        let ghost toksm = tokens_view(self.tokens@);
        let ghost acc0 = nodes_view(ast@);
        let ghost pos0 = self.pos as int;
        let mut ast = ast;
        let n = self.tokens.len();
        if self.pos >= n {
            return Ok(ast);
        }
        let cur = self.pos;
        match &self.tokens[cur] {
            Token::BlockOpen | Token::ArgsOpen => {
                let block = matches!(&self.tokens[cur], Token::BlockOpen);
                self.pos = cur + 1;
                let mut inner: Vec<Node> = Vec::new();
                while self.pos < n && !is_close(&self.tokens[self.pos])
                    invariant
                        n == self.tokens@.len(),
                        self.tokens == old(self).tokens,
                        toksm == tokens_view(self.tokens@),
                        pos0 + 1 <= self.pos <= n,
                        parse_until_close(toksm, pos0 + 1, Seq::empty()) == parse_until_close(
                            toksm,
                            self.pos as int,
                            nodes_view(inner@),
                        ),
                    decreases n - self.pos,
                {
                    let ghost p_before = self.pos as int;
                    let ghost inner_before = nodes_view(inner@);
                    proof {
                        lemma_parse_one_advances(toksm, p_before, inner_before);
                    }
                    inner = match self.parse(inner) {
                        Ok(v) => v,
                        Err(e) => {
                            proof {
                                assert(parse_until_close(toksm, p_before, inner_before)
                                    == Err::<(int, Seq<NodeModel>), ParseError>(e));
                                assert(parse_one(toksm, pos0, acc0)
                                    == Err::<(int, Seq<NodeModel>), ParseError>(e));
                            }
                            return Err(e);
                        },
                    };
                    proof {
                        assert(parse_until_close(toksm, p_before, inner_before)
                            == parse_until_close(toksm, self.pos as int, nodes_view(inner@)));
                    }
                }
                if self.pos >= n {
                    proof {
                        assert(parse_until_close(toksm, self.pos as int, nodes_view(inner@))
                            == Err::<(int, Seq<NodeModel>), ParseError>(ParseError::UnexpectedEnd));
                        assert(parse_one(toksm, pos0, acc0)
                            == Err::<(int, Seq<NodeModel>), ParseError>(ParseError::UnexpectedEnd));
                    }
                    return Err(ParseError::UnexpectedEnd);
                }
                self.pos = self.pos + 1;
                proof {
                    assert(parse_until_close(toksm, pos0 + 1, Seq::empty())
                        == Ok::<(int, Seq<NodeModel>), ParseError>(
                        (self.pos as int, nodes_view(inner@)),
                    ));
                }
                let ghost inner_m = nodes_view(inner@);
                proof {
                    lemma_nodes_view(inner@);
                }
                let node = if block {
                    if inner.len() == 1 {
                        let ghost inner_full = inner@;
                        let x = inner.pop().unwrap();
                        proof {
                            assert(inner@.push(x) =~= inner_full);
                            lemma_nodes_view(inner_full);
                            assert(node_view(x) == inner_m[0]);
                            assert(collapse_node(NodeModel::Block(inner_m)) == inner_m[0]);
                        }
                        x
                    } else {
                        Node::Block(inner)
                    }
                } else {
                    Node::List(inner)
                };
                proof {
                    lemma_nodes_view_push(ast@, node);
                }
                ast.push(node);
                Ok(ast)
            },
            Token::Identifier(name) => {
                let id = name.clone();
                if cur + 1 >= n {
                    return Err(ParseError::DanglingIdentifier);
                }
                let arrow = matches!(&self.tokens[cur + 1], Token::StorageArrow);
                let args = matches!(&self.tokens[cur + 1], Token::ArgsOpen);
                if arrow {
                    self.pos = cur + 2;
                    proof {
                        lemma_parse_one_advances(toksm, pos0 + 2, Seq::empty());
                    }
                    let mut sub = match self.parse(Vec::new()) {
                        Ok(v) => v,
                        Err(e) => {
                            return Err(e);
                        },
                    };
                    let ghost sub_full = sub@;
                    let ghost sub_m = nodes_view(sub@);
                    match sub.pop() {
                        Some(rhs) => {
                            proof {
                                assert(sub@.push(rhs) =~= sub_full);
                                lemma_nodes_view(sub_full);
                                assert(node_view(rhs) == sub_m.last());
                            }
                            let node = Node::Assign(id, Box::new(rhs));
                            proof {
                                lemma_nodes_view_push(ast@, node);
                            }
                            ast.push(node);
                            Ok(ast)
                        },
                        None => {
                            return Err(ParseError::MissingAssignValue);
                        },
                    }
                } else if args {
                    self.pos = cur + 1;
                    proof {
                        lemma_parse_one_advances(toksm, pos0 + 1, Seq::empty());
                    }
                    let mut sub = match self.parse(Vec::new()) {
                        Ok(v) => v,
                        Err(e) => {
                            return Err(e);
                        },
                    };
                    let ghost sub_full = sub@;
                    let ghost sub_m = nodes_view(sub@);
                    match sub.pop() {
                        Some(arg_node) => {
                            proof {
                                assert(sub@.push(arg_node) =~= sub_full);
                                lemma_nodes_view(sub_full);
                                assert(node_view(arg_node) == sub_m.last());
                            }
                            match arg_node {
                                Node::List(items) => {
                                    let node = Node::Call(id, items);
                                    proof {
                                        lemma_nodes_view_push(ast@, node);
                                    }
                                    ast.push(node);
                                    Ok(ast)
                                },
                                _ => {
                                    return Err(ParseError::ArgumentsNotAList);
                                },
                            }
                        },
                        None => {
                            return Err(ParseError::MissingCallArguments);
                        },
                    }
                } else {
                    self.pos = cur + 1;
                    let node = Node::Var(id);
                    proof {
                        lemma_nodes_view_push(ast@, node);
                    }
                    ast.push(node);
                    Ok(ast)
                }
            },
            Token::LambdaStart => {
                self.pos = cur + 1;
                proof {
                    lemma_parse_one_advances(toksm, pos0 + 1, Seq::empty());
                }
                let mut sub = match self.parse(Vec::new()) {
                    Ok(v) => v,
                    Err(e) => {
                        return Err(e);
                    },
                };
                let ghost sub_full = sub@;
                let ghost sub_m = nodes_view(sub@);
                match sub.pop() {
                    Some(body) => {
                        proof {
                            assert(sub@.push(body) =~= sub_full);
                            lemma_nodes_view(sub_full);
                            assert(node_view(body) == sub_m.last());
                        }
                        let node = Node::Lambda(Box::new(body));
                        proof {
                            lemma_nodes_view_push(ast@, node);
                        }
                        ast.push(node);
                        Ok(ast)
                    },
                    None => {
                        return Err(ParseError::MissingLambdaBody);
                    },
                }
            },
            Token::StringLiteral(text) => {
                let node = Node::Value(Raw::Text(text.clone()));
                self.pos = cur + 1;
                proof {
                    lemma_nodes_view_push(ast@, node);
                }
                ast.push(node);
                Ok(ast)
            },
            Token::Number(v) => {
                let node = Node::Value(Raw::Number(*v));
                self.pos = cur + 1;
                proof {
                    lemma_nodes_view_push(ast@, node);
                }
                ast.push(node);
                Ok(ast)
            },
            Token::BinaryOperation(op_name) => {
                let op = op_name.clone();
                let ghost old_ast_full = ast@;
                let left = match ast.pop() {
                    Some(l) => l,
                    None => {
                        return Err(ParseError::MissingLeftOperand);
                    },
                };
                proof {
                    assert(ast@.push(left) =~= old_ast_full);
                    lemma_nodes_view_push(ast@, left);
                    assert(acc0 == nodes_view(ast@).push(node_view(left)));
                    assert(node_view(left) == acc0.last());
                    assert(nodes_view(ast@) == acc0.drop_last());
                }
                self.pos = cur + 1;
                proof {
                    lemma_parse_one_advances(toksm, pos0 + 1, Seq::empty());
                }
                let mut sub = match self.parse(Vec::new()) {
                    Ok(v) => v,
                    Err(e) => {
                        return Err(e);
                    },
                };
                let ghost sub_m = nodes_view(sub@);
                match sub.pop() {
                    Some(right) => {
                        proof {
                            lemma_nodes_view(sub@.push(right));
                            assert(node_view(right) == sub_m.last());
                        }
                        let mut call_args: Vec<Node> = Vec::new();
                        call_args.push(left);
                        call_args.push(right);
                        let node = Node::Call(op, call_args);
                        proof {
                            assert(call_args@ =~= seq![left, right]);
                            lemma_nodes_view(call_args@);
                            assert(nodes_view(call_args@)
                                =~= seq![acc0.last(), sub_m.last()]);
                            lemma_nodes_view_push(ast@, node);
                        }
                        ast.push(node);
                        Ok(ast)
                    },
                    None => {
                        return Err(ParseError::MissingRightOperand);
                    },
                }
            },
            _ => {
                self.pos = cur + 1;
                Ok(ast)
            },
        }
    }
}

/// Parses an already-lexed token stream into a single root node: one parse
/// step from the start (a leading `BlockOpen` consumes everything to its
/// matching close), then the last node parsed.
pub fn parse_tokens(tokens: Vec<Token>) -> (r: Result<Node, ParseError>)
    ensures
        match r {
            Ok(node) => spec_parse_tokens(tokens_view(tokens@)) == Ok::<NodeModel, ParseError>(
                node@,
            ),
            Err(e) => spec_parse_tokens(tokens_view(tokens@)) == Err::<NodeModel, ParseError>(e),
        },
{
    let mut p = Parser::new(tokens);
    let mut out = match p.parse(Vec::new()) {
        Ok(o) => o,
        Err(e) => {
            return Err(e);
        },
    };
    let ghost out_m = nodes_view(out@);
    match out.pop() {
        Some(root) => {
            proof {
                lemma_nodes_view(out@.push(root));
                assert(node_view(root) == out_m.last());
            }
            Ok(root)
        },
        None => Err(ParseError::EmptySource),
    }
}

/// Takes source code, turns it into tokens, and parses them into a single
/// root node: the whole pipeline short of evaluation.  The result is a
/// function of the source text alone.
pub fn parse(src: &str) -> (r: Result<Node, ParseError>)
    ensures
        match r {
            Ok(node) => spec_parse(src@) == Ok::<NodeModel, ParseError>(node@),
            Err(e) => spec_parse(src@) == Err::<NodeModel, ParseError>(e),
        },
{
    let toks = match tokenize(src) {
        Ok(t) => t,
        Err(_) => {
            return Err(ParseError::UnterminatedString);
        },
    };
    parse_tokens(toks)
}

/// What `parse` computes from a token stream: one parse step from the start
/// (the leading `BlockOpen` consumes everything to its matching close), then
/// the last node parsed.
pub open spec fn spec_parse_tokens(toks: Seq<TokenModel>) -> Result<NodeModel, ParseError> {
    match parse_one(toks, 0, Seq::empty()) {
        Ok((i2, acc)) => if acc.len() == 0 {
            Err(ParseError::EmptySource)
        } else {
            Ok(acc.last())
        },
        Err(e) => Err(e),
    }
}

/// What `parse` computes from source text: tokenize, then parse.  Both
/// stages are functions of the source alone, so parsing the same source
/// twice always yields structurally identical trees.
pub open spec fn spec_parse(s: Seq<char>) -> Result<NodeModel, ParseError> {
    match spec_tokenize(s) {
        Some(toks) => spec_parse_tokens(toks),
        None => Err(ParseError::UnterminatedString),
    }
}

} // verus!
