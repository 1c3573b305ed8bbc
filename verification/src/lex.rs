//! The lexer: a single left-to-right scan with one character of lookahead.
//!
//! The whole output is wrapped in one extra `BlockOpen`/`BlockClose` pair, and
//! each physical line is framed as an implicit block.  `<-` opens an implicit
//! block for the right-hand side of an assignment, remembered together with
//! the brace depth at which it was opened so that it closes exactly when its
//! own line ends.  The only fatal lexing failure is an unterminated string
//! literal; any unrecognized character is skipped.

use vstd::prelude::*;
use crate::rational::Rat;
use crate::render::push_char;
use crate::token::{Token, TokenModel, tokens_view};

verus! {

/// The failure a lex can end in.
#[derive(Debug, Clone, Copy, PartialEq, Eq)]
pub enum LexError {
    /// A `"` opened a string literal that no later `"` closes.
    UnterminatedString,
}

/// A decimal digit.
pub open spec fn is_digit(c: char) -> bool {
    48 <= c as u32 <= 57
}

/// An ASCII letter.
pub open spec fn is_alpha(c: char) -> bool {
    (97 <= c as u32 <= 122) || (65 <= c as u32 <= 90)
}

/// A character that may stand in an identifier or number word.
pub open spec fn is_word_char(c: char) -> bool {
    is_digit(c) || is_alpha(c)
}

/// A single-character binary operator other than `<` (which needs a look
/// ahead for the assignment arrow).
pub open spec fn is_op_char(c: char) -> bool {
    c == '+' || c == '-' || c == '*' || c == '/' || c == '=' || c == '>' || c == '^'
}

/// The end of the word that starts at `i`: the first position at or after
/// `i` that is past the end or holds a non-word character.
pub open spec fn word_end(s: Seq<char>, i: int) -> int
    decreases s.len() - i,
{
    if i < s.len() && is_word_char(s[i]) {
        word_end(s, i + 1)
    } else {
        i
    }
}

/// The position of the first `"` at or after `i`, or the length of `s` if
/// there is none.
pub open spec fn quote_end(s: Seq<char>, i: int) -> int
    decreases s.len() - i,
{
    if i < s.len() {
        if s[i] == '"' {
            i
        } else {
            quote_end(s, i + 1)
        }
    } else {
        s.len() as int
    }
}

/// The value of a digit string, most significant digit first.
pub open spec fn digits_val(w: Seq<char>) -> nat
    decreases w.len(),
{
    if w.len() == 0 {
        0
    } else {
        digits_val(w.drop_last()) * 10 + (w.last() as u32 - 48) as nat
    }
}

/// Whether every character of `w` is a decimal digit.
pub open spec fn all_digits(w: Seq<char>) -> bool {
    forall|j: int| 0 <= j < w.len() ==> is_digit(#[trigger] w[j])
}

/// What a word lexes to: a number when it is all digits and its value fits
/// the numeric type, the `MOD` operator, else an identifier.
pub open spec fn word_token(w: Seq<char>) -> TokenModel {
    if all_digits(w) && digits_val(w) <= i64::MAX as nat {
        TokenModel::Number(Rat { n: digits_val(w) as int, d: 1 })
    } else if w == seq!['M', 'O', 'D'] {
        TokenModel::BinaryOperation(seq!['M', 'O', 'D'])
    } else {
        TokenModel::Identifier(w)
    }
}

/// The lexer's state: the tokens emitted so far, the current block nesting
/// depth, and the stack of depths at which an assignment's implicit block is
/// waiting to be closed.
pub ghost struct LexState {
    pub toks: Seq<TokenModel>,
    pub depth: int,
    pub pending: Seq<int>,
}

/// The state a lex starts in: the extra wrapping block plus the first line's
/// block are already open.
pub open spec fn lex_init() -> LexState {
    LexState {
        toks: seq![TokenModel::BlockOpen, TokenModel::BlockOpen],
        depth: 0,
        pending: Seq::empty(),
    }
}

/// Emit a token that does not touch block structure.
pub open spec fn lex_push(st: LexState, t: TokenModel) -> LexState {
    LexState { toks: st.toks.push(t), depth: st.depth, pending: st.pending }
}

/// Open a block.
pub open spec fn lex_open(st: LexState) -> LexState {
    LexState { toks: st.toks.push(TokenModel::BlockOpen), depth: st.depth + 1, pending: st.pending }
}

/// Close a block; an assignment block waiting at this very depth closes
/// first.
pub open spec fn lex_close(st: LexState) -> LexState {
    if st.pending.len() > 0 && st.pending.last() == st.depth {
        LexState {
            toks: st.toks.push(TokenModel::BlockClose).push(TokenModel::BlockClose),
            depth: st.depth - 1,
            pending: st.pending.drop_last(),
        }
    } else {
        LexState {
            toks: st.toks.push(TokenModel::BlockClose),
            depth: st.depth - 1,
            pending: st.pending,
        }
    }
}

/// Emit the assignment arrow and open the implicit block for its right-hand
/// side, remembering the depth it must close at.
pub open spec fn lex_arrow(st: LexState) -> LexState {
    LexState {
        toks: st.toks.push(TokenModel::StorageArrow).push(TokenModel::BlockOpen),
        depth: st.depth,
        pending: st.pending.push(st.depth),
    }
}

/// The lexer as a state machine over the source characters, from position
/// `i` in state `st`.  `None` is the one fatal outcome: an unterminated
/// string literal.
pub open spec fn spec_lex(s: Seq<char>, i: int, st: LexState) -> Option<Seq<TokenModel>>
    decreases s.len() - i,
    via spec_lex_decreases
{
    if !(0 <= i < s.len()) {
        Some(lex_close(lex_close(st)).toks)
    } else {
        let c = s[i];
        if c == '<' {
            if i + 1 < s.len() && s[i + 1] == '-' {
                spec_lex(s, i + 2, lex_arrow(st))
            } else {
                spec_lex(s, i + 1, lex_push(st, TokenModel::BinaryOperation(seq!['<'])))
            }
        } else if c == '\n' {
            spec_lex(s, i + 1, lex_open(lex_close(st)))
        } else if c == '{' {
            spec_lex(s, i + 1, lex_open(st))
        } else if c == '}' {
            spec_lex(s, i + 1, lex_close(st))
        } else if c == '(' {
            spec_lex(s, i + 1, lex_push(st, TokenModel::ArgsOpen))
        } else if c == ')' {
            spec_lex(s, i + 1, lex_push(st, TokenModel::ArgsClose))
        } else if is_op_char(c) {
            spec_lex(s, i + 1, lex_push(st, TokenModel::BinaryOperation(seq![c])))
        } else if c == '"' {
            let j = quote_end(s, i + 1);
            if j >= s.len() {
                None
            } else {
                spec_lex(s, j + 1, lex_push(st, TokenModel::StringLiteral(s.subrange(i + 1, j))))
            }
        } else if is_word_char(c) {
            let j = word_end(s, i);
            spec_lex(s, j, lex_push(st, word_token(s.subrange(i, j))))
        } else {
            spec_lex(s, i + 1, st)
        }
    }
}

#[via_fn]
proof fn spec_lex_decreases(s: Seq<char>, i: int, st: LexState) {
    if 0 <= i < s.len() {
        let c = s[i];
        if c == '"' {
            lemma_quote_end(s, i + 1);
        } else if !(c == '<' || c == '\n' || c == '{' || c == '}' || c == '(' || c == ')'
            || is_op_char(c)) && is_word_char(c) {
            lemma_word_end(s, i);
        }
    }
}

/// Bounds and meaning of `word_end`.
pub proof fn lemma_word_end(s: Seq<char>, i: int)
    requires
        0 <= i <= s.len(),
    ensures
        i <= word_end(s, i) <= s.len(),
        forall|j: int| i <= j < word_end(s, i) ==> is_word_char(#[trigger] s[j]),
        word_end(s, i) < s.len() ==> !is_word_char(s[word_end(s, i)]),
        i < s.len() && is_word_char(s[i]) ==> word_end(s, i) > i,
    decreases s.len() - i,
{
    if i < s.len() && is_word_char(s[i]) {
        lemma_word_end(s, i + 1);
    }
}

/// Bounds and meaning of `quote_end`.
pub proof fn lemma_quote_end(s: Seq<char>, i: int)
    requires
        0 <= i <= s.len(),
    ensures
        i <= quote_end(s, i) <= s.len(),
        forall|j: int| i <= j < quote_end(s, i) ==> #[trigger] s[j] != '"',
        quote_end(s, i) < s.len() ==> s[quote_end(s, i)] == '"',
    decreases s.len() - i,
{
    if i < s.len() && s[i] != '"' {
        lemma_quote_end(s, i + 1);
    }
}

/// What `tokenize` computes: the state machine run from the start of the
/// source in the initial state.
pub open spec fn spec_tokenize(s: Seq<char>) -> Option<Seq<TokenModel>> {
    spec_lex(s, 0, lex_init())
}

/// The characters of a string, as a vector.
fn str_chars(s: &str) -> (v: Vec<char>)
    ensures
        v@ == s@,
{
    let n = s.unicode_len();
    let mut v: Vec<char> = Vec::new();
    let mut i: usize = 0;
    while i < n
        invariant
            i <= n,
            n == s@.len(),
            v@ == s@.subrange(0, i as int),
        decreases n - i,
    {
        v.push(s.get_char(i));
        i = i + 1;
        proof {
            assert(v@ =~= s@.subrange(0, i as int));
        }
    }
    proof {
        assert(v@ =~= s@);
    }
    v
}

fn is_word_char_e(c: char) -> (b: bool)
    ensures
        b == is_word_char(c),
{
    let u = c as u32;
    (48 <= u && u <= 57) || (97 <= u && u <= 122) || (65 <= u && u <= 90)
}

fn is_op_char_e(c: char) -> (b: bool)
    ensures
        b == is_op_char(c),
{
    c == '+' || c == '-' || c == '*' || c == '/' || c == '=' || c == '>' || c == '^'
}

/// The running state of a lex: tokens emitted so far, brace depth, and the
/// stack of depths at which assignment blocks wait to close.
struct Lexer {
    tokens: Vec<Token>,
    depth: i128,
    pending: Vec<i128>,
}

impl Lexer {
    spec fn st(&self) -> LexState {
        LexState {
            toks: tokens_view(self.tokens@),
            depth: self.depth as int,
            pending: self.pending@.map_values(|x: i128| x as int),
        }
    }

    fn push_tok(&mut self, t: Token)
        ensures
            final(self).st() == lex_push(old(self).st(), t@),
            final(self).depth == old(self).depth,
    {
        self.tokens.push(t);
        proof {
            assert(tokens_view(self.tokens@) =~= old(self).st().toks.push(t@));
            assert(self.st() =~= lex_push(old(self).st(), t@));
        }
    }

    fn open_block(&mut self)
        requires
            old(self).depth < i128::MAX,
        ensures
            final(self).st() == lex_open(old(self).st()),
            final(self).depth == old(self).depth + 1,
    {
        self.tokens.push(Token::BlockOpen);
        self.depth = self.depth + 1;
        proof {
            assert(tokens_view(self.tokens@)
                =~= old(self).st().toks.push(TokenModel::BlockOpen));
            assert(self.st() =~= lex_open(old(self).st()));
        }
    }

    fn close_block(&mut self)
        requires
            old(self).depth > i128::MIN,
        ensures
            final(self).st() == lex_close(old(self).st()),
            final(self).depth == old(self).depth - 1,
    {
        let plen = self.pending.len();
        if plen > 0 {
            let last = self.pending[plen - 1];
            if last == self.depth {
                self.pending.pop();
                self.tokens.push(Token::BlockClose);
                proof {
                    assert(self.pending@.map_values(|x: i128| x as int)
                        =~= old(self).st().pending.drop_last());
                }
            }
        }
        self.tokens.push(Token::BlockClose);
        self.depth = self.depth - 1;
        proof {
            let o = old(self).st();
            if o.pending.len() > 0 && o.pending.last() == o.depth {
                assert(tokens_view(self.tokens@)
                    =~= o.toks.push(TokenModel::BlockClose).push(TokenModel::BlockClose));
            } else {
                assert(tokens_view(self.tokens@) =~= o.toks.push(TokenModel::BlockClose));
            }
            assert(self.st() =~= lex_close(o));
        }
    }

    fn arrow(&mut self)
        ensures
            final(self).st() == lex_arrow(old(self).st()),
            final(self).depth == old(self).depth,
    {
        self.tokens.push(Token::StorageArrow);
        self.tokens.push(Token::BlockOpen);
        self.pending.push(self.depth);
        proof {
            assert(tokens_view(self.tokens@)
                =~= old(self).st().toks.push(TokenModel::StorageArrow).push(TokenModel::BlockOpen));
            assert(self.pending@.map_values(|x: i128| x as int)
                =~= old(self).st().pending.push(old(self).st().depth));
            assert(self.st() =~= lex_arrow(old(self).st()));
        }
    }
}

/// Turns source text into a token stream.  The whole stream is wrapped in one
/// `BlockOpen`/`BlockClose` pair, each physical line is framed as a block of
/// its own, and the right-hand side of each `<-` gets an implicit block that
/// closes when its line does.  The only fatal failure is a string literal
/// that no closing quote ends; unrecognized characters are skipped.
pub fn tokenize(source: &str) -> (r: Result<Vec<Token>, LexError>)
    ensures
        match r {
            Ok(toks) => spec_tokenize(source@) == Some(tokens_view(toks@)),
            Err(e) => spec_tokenize(source@) is None && e == LexError::UnterminatedString,
        },
{
    let s = str_chars(source);
    let n = s.len();
    let mut lx = Lexer { tokens: Vec::new(), depth: 0, pending: Vec::new() };
    lx.tokens.push(Token::BlockOpen);
    lx.tokens.push(Token::BlockOpen);
    proof {
        assert(lx.st().toks =~= lex_init().toks);
        assert(lx.st().pending =~= lex_init().pending);
        assert(lx.st() =~= lex_init());
    }
    let mut i: usize = 0;
    while i < n
        invariant
            i <= n,
            n == s@.len(),
            s@ == source@,
            spec_tokenize(source@) == spec_lex(source@, i as int, lx.st()),
            -(i as int) - 2 <= lx.depth as int <= i as int + 2,
        decreases n - i,
    {
        let ghost st0 = lx.st();
        let ghost i0 = i as int;
        let c = s[i];
        if c == '<' {
            if i + 1 < n && s[i + 1] == '-' {
                lx.arrow();
                i = i + 2;
            proof {
                assert(spec_lex(source@, i0, st0) == spec_lex(source@, i as int, lx.st()));
            }
            } else {
                let mut sym = String::new();
                push_char(&mut sym, '<');
                proof {
                    assert(sym@ =~= seq!['<']);
                }
                lx.push_tok(Token::BinaryOperation(sym));
                i = i + 1;
            proof {
                assert(spec_lex(source@, i0, st0) == spec_lex(source@, i as int, lx.st()));
            }
            }
        } else if c == '\n' {
            lx.close_block();
            lx.open_block();
            i = i + 1;
            proof {
                assert(spec_lex(source@, i0, st0) == spec_lex(source@, i as int, lx.st()));
            }
        } else if c == '{' {
            lx.open_block();
            i = i + 1;
            proof {
                assert(spec_lex(source@, i0, st0) == spec_lex(source@, i as int, lx.st()));
            }
        } else if c == '}' {
            lx.close_block();
            i = i + 1;
            proof {
                assert(spec_lex(source@, i0, st0) == spec_lex(source@, i as int, lx.st()));
            }
        } else if c == '(' {
            lx.push_tok(Token::ArgsOpen);
            i = i + 1;
            proof {
                assert(spec_lex(source@, i0, st0) == spec_lex(source@, i as int, lx.st()));
            }
        } else if c == ')' {
            lx.push_tok(Token::ArgsClose);
            i = i + 1;
            proof {
                assert(spec_lex(source@, i0, st0) == spec_lex(source@, i as int, lx.st()));
            }
        } else if is_op_char_e(c) {
            let mut sym = String::new();
            push_char(&mut sym, c);
            proof {
                assert(sym@ =~= seq![c]);
            }
            lx.push_tok(Token::BinaryOperation(sym));
            i = i + 1;
            proof {
                assert(spec_lex(source@, i0, st0) == spec_lex(source@, i as int, lx.st()));
            }
        } else if c == '"' {
            proof {
                lemma_quote_end(source@, i as int + 1);
            }
            let mut j = i + 1;
            let mut lit = String::new();
            while j < n && s[j] != '"'
                invariant
                    i + 1 <= j <= n,
                    i < n,
                    n == s@.len(),
                    s@ == source@,
                    quote_end(source@, i as int + 1) == quote_end(source@, j as int),
                    lit@ == s@.subrange(i as int + 1, j as int),
                decreases n - j,
            {
                push_char(&mut lit, s[j]);
                j = j + 1;
                proof {
                    assert(lit@ =~= s@.subrange(i as int + 1, j as int));
                }
            }
            if j == n {
                proof {
                    assert(quote_end(source@, i as int + 1) == n);
                    assert(spec_lex(source@, i0, st0) is None);
                }
                return Err(LexError::UnterminatedString);
            }
            proof {
                assert(quote_end(source@, i as int + 1) == j as int);
            }
            lx.push_tok(Token::StringLiteral(lit));
            i = j + 1;
            proof {
                assert(spec_lex(source@, i0, st0) == spec_lex(source@, i as int, lx.st()));
            }
        } else if is_word_char_e(c) {
            proof {
                lemma_word_end(source@, i as int);
            }
            let mut j = i;
            let mut name = String::new();
            let mut acc: u64 = 0;
            let mut numeric = true;
            while j < n && is_word_char_e(s[j])
                invariant
                    i <= j <= n,
                    n == s@.len(),
                    s@ == source@,
                    word_end(source@, i as int) == word_end(source@, j as int),
                    name@ == s@.subrange(i as int, j as int),
                    numeric <==> (all_digits(s@.subrange(i as int, j as int))
                        && digits_val(s@.subrange(i as int, j as int)) <= i64::MAX as nat),
                    numeric ==> acc as nat == digits_val(s@.subrange(i as int, j as int)),
                decreases n - j,
            {
                let ghost before = s@.subrange(i as int, j as int);
                let c2 = s[j];
                push_char(&mut name, c2);
                proof {
                    assert(before.push(c2) =~= s@.subrange(i as int, j as int + 1));
                    assert(before.push(c2).drop_last() =~= before);
                }
                let u2 = c2 as u32;
                if numeric {
                    if 48 <= u2 && u2 <= 57 {
                        let v = acc as u128 * 10 + (u2 - 48) as u128;
                        if v <= i64::MAX as u128 {
                            acc = v as u64;
                        } else {
                            numeric = false;
                            proof {
                                let w = before.push(c2);
                                assert(digits_val(w)
                                    == digits_val(before) * 10 + (c2 as u32 - 48) as nat);
                                lemma_digits_prefix_le(w);
                            }
                        }
                    } else {
                        numeric = false;
                    }
                } else {
                    proof {
                        let w = before.push(c2);
                        if all_digits(w) {
                            assert(all_digits(before));
                            assert(digits_val(w)
                                == digits_val(before) * 10 + (c2 as u32 - 48) as nat);
                        }
                    }
                }
                j = j + 1;
            }
            proof {
                assert(word_end(source@, j as int) == j as int);
            }
            let ghost w = s@.subrange(i as int, j as int);
            if numeric {
                lx.push_tok(Token::Number(crate::rational::Num::from_int(acc as i64)));
                proof {
                    assert(word_token(w) == TokenModel::Number(Rat { n: acc as int, d: 1 }));
                }
            } else {
                let m = mod_word();
                if name == m {
                    proof {
                        reveal_strlit("MOD");
                        assert(w =~= seq!['M', 'O', 'D']);
                    }
                    lx.push_tok(Token::BinaryOperation(name));
                } else {
                    proof {
                        reveal_strlit("MOD");
                        if w == seq!['M', 'O', 'D'] {
                            assert(name@ =~= "MOD"@);
                        }
                    }
                    lx.push_tok(Token::Identifier(name));
                }
            }
            i = j;
            proof {
                assert(spec_lex(source@, i0, st0) == spec_lex(source@, i as int, lx.st()));
            }
        } else {
            i = i + 1;
            proof {
                assert(spec_lex(source@, i0, st0) == spec_lex(source@, i as int, lx.st()));
            }
        }
    }
    lx.close_block();
    lx.close_block();
    proof {
        assert(spec_tokenize(source@) == Some(tokens_view(lx.tokens@)));
    }
    Ok(lx.tokens)
}

/// The word spelled `MOD`.
fn mod_word() -> (m: String)
    ensures
        m@ == "MOD"@,
{
    String::from_str("MOD")
}

/// A digit string's value does not shrink as digits are appended.
proof fn lemma_digits_prefix_le(w: Seq<char>)
    requires
        w.len() > 0,
    ensures
        digits_val(w.drop_last()) <= digits_val(w),
{
}

/// How many `"` characters stand in `s` at or after position `i`.
pub open spec fn count_quotes(s: Seq<char>, i: int) -> nat
    decreases s.len() - i,
{
    if !(0 <= i < s.len()) {
        0
    } else if s[i] == '"' {
        1 + count_quotes(s, i + 1)
    } else {
        count_quotes(s, i + 1)
    }
}

/// Quote-free stretches do not change the count.
proof fn lemma_count_quotes_skip(s: Seq<char>, i: int, k: int)
    requires
        0 <= i <= k <= s.len(),
        forall|j: int| i <= j < k ==> #[trigger] s[j] != '"',
    ensures
        count_quotes(s, i) == count_quotes(s, k),
    decreases k - i,
{
    if i < k {
        lemma_count_quotes_skip(s, i + 1, k);
    }
}

/// The lex fails from position `i` exactly when an odd number of quotes
/// remains: quotes pair up left to right, each string literal consuming two,
/// so a lone last quote is the one fatal shape.
#[verifier::spinoff_prover]
#[verifier::rlimit(100)]
proof fn lemma_lex_none_iff(s: Seq<char>, i: int, st: LexState)
    requires
        0 <= i <= s.len(),
    ensures
        (spec_lex(s, i, st) is None) <==> count_quotes(s, i) % 2 == 1,
    decreases s.len() - i,
{
    if i >= s.len() {
        assert(count_quotes(s, i) == 0);
        assert(spec_lex(s, i, st) is Some);
    }
    if i < s.len() {
        let c = s[i];
        if c == '<' {
            if i + 1 < s.len() && s[i + 1] == '-' {
                lemma_lex_none_iff(s, i + 2, lex_arrow(st));
                assert(spec_lex(s, i, st) == spec_lex(s, i + 2, lex_arrow(st)));
                assert(count_quotes(s, i) == count_quotes(s, i + 1));
                assert(count_quotes(s, i + 1) == count_quotes(s, i + 2));
            } else {
                lemma_lex_none_iff(s, i + 1, lex_push(st, TokenModel::BinaryOperation(seq!['<'])));
                assert(count_quotes(s, i) == count_quotes(s, i + 1));
            }
            assert((spec_lex(s, i, st) is None) <==> count_quotes(s, i) % 2 == 1);
        } else if c == '"' {
            let j = quote_end(s, i + 1);
            lemma_quote_end(s, i + 1);
            lemma_count_quotes_skip(s, i + 1, j);
            if j >= s.len() {
                assert(count_quotes(s, i) == 1 + count_quotes(s, i + 1));
                assert(count_quotes(s, j) == 0);
            } else {
                assert(count_quotes(s, i) == 1 + count_quotes(s, i + 1));
                assert(count_quotes(s, j) == 1 + count_quotes(s, j + 1));
                lemma_lex_none_iff(
                    s,
                    j + 1,
                    lex_push(st, TokenModel::StringLiteral(s.subrange(i + 1, j))),
                );
            }
            assert((spec_lex(s, i, st) is None) <==> count_quotes(s, i) % 2 == 1);
        } else if c == '\n' || c == '{' || c == '}' || c == '(' || c == ')' || is_op_char(c) {
            let st2 = if c == '\n' {
                lex_open(lex_close(st))
            } else if c == '{' {
                lex_open(st)
            } else if c == '}' {
                lex_close(st)
            } else if c == '(' {
                lex_push(st, TokenModel::ArgsOpen)
            } else if c == ')' {
                lex_push(st, TokenModel::ArgsClose)
            } else {
                lex_push(st, TokenModel::BinaryOperation(seq![c]))
            };
            lemma_lex_none_iff(s, i + 1, st2);
            assert(spec_lex(s, i, st) == spec_lex(s, i + 1, st2));
            assert(count_quotes(s, i) == count_quotes(s, i + 1));
            assert((spec_lex(s, i, st) is None) <==> count_quotes(s, i) % 2 == 1);
        } else if is_word_char(c) {
            let j = word_end(s, i);
            lemma_word_end(s, i);
            assert(forall|k: int| i <= k < j ==> #[trigger] s[k] != '"') by {
                assert(forall|k: int| i <= k < j ==> is_word_char(#[trigger] s[k]));
            }
            lemma_count_quotes_skip(s, i, j);
            lemma_lex_none_iff(s, j, lex_push(st, word_token(s.subrange(i, j))));
            assert(spec_lex(s, i, st) == spec_lex(s, j, lex_push(st, word_token(s.subrange(i, j)))));
            assert((spec_lex(s, i, st) is None) <==> count_quotes(s, i) % 2 == 1);
        } else {
            lemma_lex_none_iff(s, i + 1, st);
            assert(spec_lex(s, i, st) == spec_lex(s, i + 1, st));
            assert(count_quotes(s, i) == count_quotes(s, i + 1));
            assert((spec_lex(s, i, st) is None) <==> count_quotes(s, i) % 2 == 1);
        }
    }
}

/// A source fails to lex exactly when its `"` characters do not pair up:
/// a string literal runs to the next quote, so an odd total count means the
/// last literal is unterminated, and that is the only fatal lexing shape.
/// No other input is ever rejected, and no literal is silently truncated.
pub proof fn lemma_unterminated_literal_iff(s: Seq<char>)
    ensures
        (spec_tokenize(s) is None) <==> count_quotes(s, 0) % 2 == 1,
{
    lemma_lex_none_iff(s, 0, lex_init());
}

} // verus!
