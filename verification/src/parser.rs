//! The Pratt parser: recursive descent with precedence climbing. Faulty
//! input never stops it; each failed sub-parse records a diagnostic and
//! the statement is dropped. Termination rests on a token-stream measure
//! that every consuming step strictly shrinks.

use crate::ast::{
    expr_wf, exprs_all_ident, exprs_wf, is_block_stmt, is_ident_expr, lemma_view_exprs,
    lemma_view_exprs_push, lemma_view_stmts, lemma_view_stmts_push, stmt_wf, stmts_wf, view_expr,
    view_exprs, view_stmt, view_stmts, Expression, ExprV, Program, Statement, StmtV,
};
use crate::lexer::Lexer;
use crate::strutil::dec_rep;
use crate::token::{new_token, token_type_name, Token, TokenType, TokenV};
use vstd::prelude::*;

verus! {

/// Operator binding powers, loosest first.
#[allow(non_camel_case_types)]
#[derive(Clone, Copy, PartialEq, Eq, Structural, Debug)]
pub enum Precedence {
    LOWEST,
    EQUALS,
    LESSGREATER,
    SUM,
    PRODUCT,
    PREFIX,
    CALL,
}

/// The numeric rank of a binding power.
pub open spec fn prec_rank(p: Precedence) -> int {
    match p {
        Precedence::LOWEST => 0,
        Precedence::EQUALS => 1,
        Precedence::LESSGREATER => 2,
        Precedence::SUM => 3,
        Precedence::PRODUCT => 4,
        Precedence::PREFIX => 5,
        Precedence::CALL => 6,
    }
}

fn precedence_value(p: Precedence) -> (r: u8)
    ensures
        r as int == prec_rank(p),
{
    match p {
        Precedence::LOWEST => 0,
        Precedence::EQUALS => 1,
        Precedence::LESSGREATER => 2,
        Precedence::SUM => 3,
        Precedence::PRODUCT => 4,
        Precedence::PREFIX => 5,
        Precedence::CALL => 6,
    }
}

/// The binding power of the operator a token kind stands for; the single
/// source of truth for how operators group.
pub open spec fn spec_token_precedence(t: TokenType) -> Precedence {
    match t {
        TokenType::EQ => Precedence::EQUALS,
        TokenType::NOTEQ => Precedence::EQUALS,
        TokenType::LT => Precedence::LESSGREATER,
        TokenType::GT => Precedence::LESSGREATER,
        TokenType::PLUS => Precedence::SUM,
        TokenType::MINUS => Precedence::SUM,
        TokenType::SLASH => Precedence::PRODUCT,
        TokenType::ASTERISK => Precedence::PRODUCT,
        TokenType::LPAREN => Precedence::CALL,
        _ => Precedence::LOWEST,
    }
}

/// The binding power of a token kind.
pub fn token_type_to_precedence(t: &TokenType) -> (r: Precedence)
    ensures
        r == spec_token_precedence(*t),
{
    match t {
        TokenType::EQ => Precedence::EQUALS,
        TokenType::NOTEQ => Precedence::EQUALS,
        TokenType::LT => Precedence::LESSGREATER,
        TokenType::GT => Precedence::LESSGREATER,
        TokenType::PLUS => Precedence::SUM,
        TokenType::MINUS => Precedence::SUM,
        TokenType::SLASH => Precedence::PRODUCT,
        TokenType::ASTERISK => Precedence::PRODUCT,
        TokenType::LPAREN => Precedence::CALL,
        _ => Precedence::LOWEST,
    }
}

/// The numeric value of a digit string, most significant first.
pub open spec fn digits_val(s: Seq<char>) -> int
    decreases s,
{
    if s.len() == 0 {
        0
    } else {
        digits_val(s.drop_last()) * 10 + (s.last() as int - 48)
    }
}

/// What parsing an integer literal yields: the token text must be all
/// digits and its value must fit the 64-bit signed range.
pub open spec fn spec_parse_i64(s: Seq<char>) -> Option<int> {
    if s.len() > 0 && (forall|i: int| 0 <= i < s.len() ==> crate::lexer::is_digit(#[trigger] s[i]))
        && digits_val(s) <= i64::MAX {
        Some(digits_val(s))
    } else {
        None
    }
}

proof fn lemma_digits_val_nonneg(s: Seq<char>)
    requires
        forall|i: int| 0 <= i < s.len() ==> crate::lexer::is_digit(#[trigger] s[i]),
    ensures
        digits_val(s) >= 0,
    decreases s,
{
    if s.len() > 0 {
        assert(forall|i: int| 0 <= i < s.drop_last().len() ==> crate::lexer::is_digit(
            #[trigger] s.drop_last()[i],
        ));
        lemma_digits_val_nonneg(s.drop_last());
    }
}

proof fn lemma_digits_val_mono(s: Seq<char>, i: int, j: int)
    requires
        forall|k: int| 0 <= k < s.len() ==> crate::lexer::is_digit(#[trigger] s[k]),
        0 <= i <= j <= s.len(),
    ensures
        digits_val(s.take(i)) <= digits_val(s.take(j)),
    decreases j - i,
{
    if i < j {
        lemma_digits_val_mono(s, i, j - 1);
        let t = s.take(j);
        assert(t.drop_last() =~= s.take(j - 1));
        assert(forall|k: int| 0 <= k < t.len() ==> crate::lexer::is_digit(#[trigger] t[k]));
        lemma_digits_val_nonneg(t.drop_last());
        assert(t.last() == s[j - 1]);
        assert(t.last() as int - 48 >= 0);
        assert(digits_val(t) == digits_val(t.drop_last()) * 10 + (t.last() as int - 48));
        assert(digits_val(t.drop_last()) * 10 >= digits_val(t.drop_last()));
    }
}

/// The message recorded when the token after the current one is not what
/// the grammar needs.
pub open spec fn peek_error_msg(t: TokenType, got: TokenType) -> Seq<char> {
    "\nexpected next token to be "@ + token_type_name(t) + ", got "@ + token_type_name(got)
        + " instead."@
}

/// The message recorded when no rule can start an expression at the
/// current token.
pub open spec fn no_prefix_msg(t: TokenType) -> Seq<char> {
    "no prefix parse function for "@ + token_type_name(t) + " found"@
}

/// The views of a token vector.
pub open spec fn view_tokens(v: Seq<Token>) -> Seq<TokenV>
    decreases v,
{
    if v.len() == 0 {
        Seq::empty()
    } else {
        seq![v[0]@] + view_tokens(v.drop_first())
    }
}

pub proof fn lemma_view_tokens(v: Seq<Token>)
    ensures
        view_tokens(v).len() == v.len(),
        forall|i: int| 0 <= i < v.len() ==> view_tokens(v)[i] == v[i]@,
    decreases v,
{
    if v.len() > 0 {
        lemma_view_tokens(v.drop_first());
    }
}

pub proof fn lemma_view_tokens_push(v: Seq<Token>, t: Token)
    ensures
        view_tokens(v.push(t)) == view_tokens(v).push(t@),
    decreases v,
{
    if v.len() == 0 {
        assert(v.push(t).drop_first() =~= Seq::<Token>::empty());
        assert(view_tokens(Seq::<Token>::empty()) == Seq::<TokenV>::empty());
        assert(v.push(t)[0] == t);
        assert(view_tokens(v.push(t)) =~= view_tokens(v).push(t@));
    } else {
        lemma_view_tokens_push(v.drop_first(), t);
        assert(v.push(t).drop_first() =~= v.drop_first().push(t));
        assert(v.push(t)[0] == v[0]);
        assert(view_tokens(v.push(t)) =~= view_tokens(v).push(t@));
    }
}

/// The views of the diagnostics gathered so far.
pub open spec fn view_errors(v: Seq<String>) -> Seq<Seq<char>>
    decreases v,
{
    if v.len() == 0 {
        Seq::empty()
    } else {
        seq![v[0]@] + view_errors(v.drop_first())
    }
}

pub proof fn lemma_view_errors(v: Seq<String>)
    ensures
        view_errors(v).len() == v.len(),
        forall|i: int| 0 <= i < v.len() ==> view_errors(v)[i] == v[i]@,
    decreases v,
{
    if v.len() > 0 {
        lemma_view_errors(v.drop_first());
    }
}

pub proof fn lemma_view_errors_push(v: Seq<String>, e: String)
    ensures
        view_errors(v.push(e)) == view_errors(v).push(e@),
    decreases v,
{
    if v.len() == 0 {
        assert(v.push(e).drop_first() =~= Seq::<String>::empty());
        assert(view_errors(Seq::<String>::empty()) == Seq::<Seq<char>>::empty());
        assert(v.push(e)[0] == e);
        assert(view_errors(v.push(e)) =~= view_errors(v).push(e@));
    } else {
        lemma_view_errors_push(v.drop_first(), e);
        assert(v.push(e).drop_first() =~= v.drop_first().push(e));
        assert(v.push(e)[0] == v[0]);
        assert(view_errors(v.push(e)) =~= view_errors(v).push(e@));
    }
}

/// The parser's whole mathematical state: the token views, the cursor,
/// the diagnostics and the incompleteness flag. The definitional parser
/// below steps this state exactly as the executable parser steps its own.
#[verifier::ext_equal]
pub struct PState {
    pub toks: Seq<TokenV>,
    pub pos: int,
    pub cur: TokenV,
    pub peek: TokenV,
    pub errors: Seq<Seq<char>>,
    pub incomplete: bool,
}

/// The synthetic end-of-input token the cursor sees past the stream.
pub open spec fn eof_tok() -> TokenV {
    TokenV { kind: TokenType::EOF, lit: Seq::empty() }
}

/// The placeholder token the cursor holds before the first shift.
pub open spec fn start_tok() -> TokenV {
    TokenV { kind: TokenType::ILLEGAL, lit: Seq::empty() }
}

/// A sound parser state: the stream ends with its only end-of-input
/// token, the position is in range, and lookahead past the end sees only
/// end-of-input.
pub open spec fn st_wf(st: PState) -> bool {
    &&& st.toks.len() >= 1
    &&& st.toks.last().kind == TokenType::EOF
    &&& forall|i: int|
        0 <= i < st.toks.len() - 1 ==> (#[trigger] st.toks[i]).kind != TokenType::EOF
    &&& 0 <= st.pos <= st.toks.len()
    &&& (st.pos == st.toks.len() ==> st.peek.kind == TokenType::EOF)
}

/// The unread input left, counting the cursor and lookahead while they
/// still hold real tokens.
pub open spec fn st_measure(st: PState) -> int {
    4 * (st.toks.len() - st.pos) + (if st.cur.kind != TokenType::EOF {
        2int
    } else {
        0int
    }) + (if st.peek.kind != TokenType::EOF {
        1int
    } else {
        0int
    })
}

/// Shift the lookahead into the cursor and pull the next token.
pub open spec fn st_next(st: PState) -> PState {
    if st.pos < st.toks.len() {
        PState { cur: st.peek, peek: st.toks[st.pos], pos: st.pos + 1, ..st }
    } else {
        PState { cur: st.peek, peek: eof_tok(), ..st }
    }
}

/// Record a diagnostic.
pub open spec fn st_error(st: PState, msg: Seq<char>) -> PState {
    PState { errors: st.errors.push(msg), ..st }
}

/// Step past the lookahead when it has the expected kind; otherwise
/// record the complaint and stand still.
pub open spec fn st_expect(st: PState, t: TokenType) -> (PState, bool) {
    if st.peek.kind == t {
        (st_next(st), true)
    } else {
        (st_error(st, peek_error_msg(t, st.peek.kind)), false)
    }
}

/// Keep a state only when it is sound, on the same stream, and no larger
/// than the bound; otherwise fall back to the bound. The executable
/// parser always satisfies all three, so on its runs this is the
/// identity; it is here so the definitional parser visibly terminates.
pub open spec fn st_cap(bound: PState, st: PState) -> PState {
    if st_wf(st) && st.toks == bound.toks && st_measure(st) <= st_measure(bound) {
        st
    } else {
        bound
    }
}

/// The message recorded for an integer literal that does not parse.
pub open spec fn int_error_msg(lit: Seq<char>) -> Seq<char> {
    "could not parse "@ + lit + " as integer"@
}

/// The state a fresh parser stands in: at the head of the stream, after
/// the two shifts that fill the cursor and the lookahead.
pub open spec fn parser_init_s(toks: Seq<TokenV>) -> PState {
    st_next(
        st_next(
            PState {
                toks,
                pos: 0,
                cur: start_tok(),
                peek: start_tok(),
                errors: Seq::empty(),
                incomplete: false,
            },
        ),
    )
}


/// The parser's state view agrees with its own invariant and measure.
pub proof fn lemma_pstate(p: Parser)
    ensures
        p.pstate().toks.len() == p.tokens@.len(),
        forall|i: int| 0 <= i < p.tokens@.len() ==> p.pstate().toks[i] == p.tokens@[i]@,
        p.pstate().errors.len() == p.errors@.len(),
        forall|i: int| 0 <= i < p.errors@.len() ==> p.pstate().errors[i] == p.errors@[i]@,
        st_measure(p.pstate()) == p.measure(),
        st_wf(p.pstate()) == p.wf(),
{
    lemma_view_tokens(p.tokens@);
    lemma_view_errors(p.errors@);
    let st = p.pstate();
    if p.tokens@.len() >= 1 {
        assert(st.toks.last() == p.tokens@.last()@);
    }
    if st_wf(st) {
        assert forall|i: int|
            0 <= i < p.tokens@.len() - 1 implies (#[trigger] p.tokens@[i])@.kind
            != TokenType::EOF by {
            assert(st.toks[i] == p.tokens@[i]@);
        }
        assert(p.wf());
    }
    if p.wf() {
        assert forall|i: int| 0 <= i < st.toks.len() - 1 implies (#[trigger] st.toks[i]).kind
            != TokenType::EOF by {
            assert(st.toks[i] == p.tokens@[i]@);
        }
        assert(st_wf(st));
    }
}

/// On the executable parser's own states the capping guard is always
/// satisfied, so `st_cap` is the identity.
pub proof fn lemma_cap_id(p0: Parser, p1: Parser)
    requires
        p1.wf(),
        p1.tokens == p0.tokens,
        p1.measure() <= p0.measure(),
    ensures
        st_cap(p0.pstate(), p1.pstate()) == p1.pstate(),
{
    lemma_pstate(p0);
    lemma_pstate(p1);
    assert(p1.pstate().toks == p0.pstate().toks);
}

/// The parser: the token stream, a cursor with one token of lookahead,
/// and the diagnostics gathered so far.
pub struct Parser {
    pub tokens: Vec<Token>,
    pub pos: usize,
    pub cur_token: Token,
    pub peek_token: Token,
    pub errors: Vec<String>,
    pub incomplete: bool,
}

impl Parser {
    /// The token stream is sound: it ends with its only end-of-input
    /// token, the cursor is in range, and lookahead past the end only
    /// ever sees end-of-input.
    pub open spec fn wf(&self) -> bool {
        &&& self.tokens@.len() >= 1
        &&& self.tokens@.last()@.kind == TokenType::EOF
        &&& forall|i: int|
            0 <= i < self.tokens@.len() - 1 ==> (#[trigger] self.tokens@[i])@.kind
                != TokenType::EOF
        &&& self.pos <= self.tokens@.len()
        &&& (self.pos == self.tokens@.len() ==> self.peek_token@.kind == TokenType::EOF)
    }

    /// How much input is left to consume: the unread tokens, plus one
    /// step each for a cursor not yet at end-of-input.
    pub open spec fn measure(&self) -> int {
        4 * (self.tokens@.len() - self.pos) + (if self.cur_token@.kind != TokenType::EOF {
            2int
        } else {
            0int
        }) + (if self.peek_token@.kind != TokenType::EOF {
            1int
        } else {
            0int
        })
    }

    /// This parser's whole mathematical state.
    pub open spec fn pstate(&self) -> PState {
        PState {
            toks: view_tokens(self.tokens@),
            pos: self.pos as int,
            cur: self.cur_token@,
            peek: self.peek_token@,
            errors: view_errors(self.errors@),
            incomplete: self.incomplete,
        }
    }

    /// Drain the lexer and stand ready at the first token.
    pub fn new(l: Lexer) -> (p: Parser)
        requires
            l.wf(),
        ensures
            p.wf(),
            p.errors@.len() == 0,
            !p.incomplete,
            view_tokens(p.tokens@) == crate::lexer::tokenize_s(l.input@, l.pos as int),
            p.pstate() == parser_init_s(view_tokens(p.tokens@)),
    {
        let ghost s0 = l.input@;
        let ghost q0 = l.pos as int;
        let ghost target = crate::lexer::tokenize_s(s0, q0);
        let mut lx = l;
        let mut tokens: Vec<Token> = Vec::new();
        proof {
            lemma_view_tokens(tokens@);
            assert(view_tokens(tokens@) =~= Seq::<TokenV>::empty());
            assert(target =~= view_tokens(tokens@) + crate::lexer::tokenize_s(
                s0,
                lx.pos as int,
            ));
        }
        loop
            invariant_except_break
                lx.wf(),
                lx.input@ == s0,
                forall|i: int| 0 <= i < tokens@.len() ==> (#[trigger] tokens@[i])@.kind
                    != TokenType::EOF,
                target == view_tokens(tokens@) + crate::lexer::tokenize_s(s0, lx.pos as int),
            ensures
                tokens@.len() >= 1,
                tokens@.last()@.kind == TokenType::EOF,
                forall|i: int| 0 <= i < tokens@.len() - 1 ==> (#[trigger] tokens@[i])@.kind
                    != TokenType::EOF,
                view_tokens(tokens@) == target,
            decreases lx.input@.len() - lx.pos,
        {
            let ghost pos_before = lx.pos as int;
            let t = lx.next_token();
            let is_end = t.token_type == TokenType::EOF;
            let ghost before = tokens@;
            proof {
                lemma_view_tokens_push(before, t);
            }
            tokens.push(t);
            proof {
                assert(forall|i: int| 0 <= i < before.len() ==> (#[trigger] tokens@[i])
                    == before[i]);
            }
            if is_end {
                proof {
                    assert(crate::lexer::tokenize_s(s0, pos_before) =~= seq![t@]);
                    assert(view_tokens(tokens@) =~= view_tokens(before).push(t@));
                    assert(view_tokens(tokens@) =~= target);
                }
                break ;
            }
            proof {
                assert(0 <= pos_before < s0.len());
                assert(crate::lexer::tokenize_s(s0, pos_before) =~= seq![t@]
                    + crate::lexer::tokenize_s(s0, lx.pos as int));
                assert(view_tokens(before) + (seq![t@] + crate::lexer::tokenize_s(
                    s0,
                    lx.pos as int,
                )) =~= view_tokens(before).push(t@) + crate::lexer::tokenize_s(
                    s0,
                    lx.pos as int,
                ));
                assert(target == view_tokens(tokens@) + crate::lexer::tokenize_s(
                    s0,
                    lx.pos as int,
                ));
            }
        }
        let mut p = Parser {
            tokens,
            pos: 0,
            cur_token: new_token(TokenType::ILLEGAL, String::new()),
            peek_token: new_token(TokenType::ILLEGAL, String::new()),
            errors: Vec::new(),
            incomplete: false,
        };
        proof {
            assert(p.tokens@.last()@.kind == TokenType::EOF);
            lemma_pstate(p);
            lemma_view_errors(p.errors@);
            assert(p.pstate().cur =~= start_tok());
            assert(p.pstate().peek =~= start_tok());
            assert(p.pstate().errors =~= Seq::<Seq<char>>::empty());
            assert(p.pstate() =~= (PState {
                toks: view_tokens(p.tokens@),
                pos: 0,
                cur: start_tok(),
                peek: start_tok(),
                errors: Seq::empty(),
                incomplete: false,
            }));
        }
        p.next_token();
        p.next_token();
        p
    }

    /// Whether the final statement looks unterminated, so a line-oriented
    /// front end should ask for another line instead of reporting errors.
    pub fn need_next(&self) -> (r: bool)
        ensures
            r == self.incomplete,
    {
        self.incomplete
    }

    /// Shift the lookahead into the cursor and pull the next token.
    fn next_token(&mut self)
        requires
            old(self).wf(),
        ensures
            final(self).wf(),
            final(self).tokens == old(self).tokens,
            final(self).errors == old(self).errors,
            final(self).incomplete == old(self).incomplete,
            final(self).cur_token@ == old(self).peek_token@,
            final(self).measure() <= old(self).measure(),
            (old(self).cur_token@.kind != TokenType::EOF || old(self).peek_token@.kind
                != TokenType::EOF) ==> final(self).measure() < old(self).measure(),
            final(self).pstate() == st_next(old(self).pstate()),
    {
        proof {
            lemma_view_tokens(self.tokens@);
        }
        self.cur_token = self.peek_token.clone();
        if self.pos < self.tokens.len() {
            proof {
                if self.pos + 1 == self.tokens@.len() {
                    assert(self.tokens@[self.pos as int] == self.tokens@.last());
                }
            }
            self.peek_token = self.tokens[self.pos].clone();
            self.pos = self.pos + 1;
            proof {
                assert(final(self).pstate() =~= st_next(old(self).pstate()));
            }
        } else {
            self.peek_token = new_token(TokenType::EOF, String::new());
            proof {
                assert(final(self).peek_token@ =~= eof_tok());
                assert(final(self).pstate() =~= st_next(old(self).pstate()));
            }
        }
    }

    /// Whether the current token has the given kind.
    fn cur_token_is(&self, t: &TokenType) -> (r: bool)
        ensures
            r == (self.cur_token@.kind == *t),
    {
        self.cur_token.token_type == *t
    }

    /// Whether the lookahead token has the given kind.
    fn peek_token_is(&self, t: &TokenType) -> (r: bool)
        ensures
            r == (self.peek_token@.kind == *t),
    {
        self.peek_token.token_type == *t
    }

    /// The binding power of the lookahead token.
    fn peek_precedence(&self) -> (r: Precedence)
        ensures
            r == spec_token_precedence(self.peek_token@.kind),
    {
        token_type_to_precedence(&self.peek_token.token_type)
    }

    /// The binding power of the current token.
    fn cur_precedence(&self) -> (r: Precedence)
        ensures
            r == spec_token_precedence(self.cur_token@.kind),
    {
        token_type_to_precedence(&self.cur_token.token_type)
    }

    /// Record that the lookahead was not the expected kind.
    fn peek_error(&mut self, t: TokenType)
        ensures
            final(self).tokens == old(self).tokens,
            final(self).pos == old(self).pos,
            final(self).cur_token == old(self).cur_token,
            final(self).peek_token == old(self).peek_token,
            final(self).incomplete == old(self).incomplete,
            final(self).errors@.len() == old(self).errors@.len() + 1,
            final(self).errors@.drop_last() == old(self).errors@,
            final(self).errors@.last()@ == peek_error_msg(t, old(self).peek_token@.kind),
            final(self).measure() == old(self).measure(),
            old(self).wf() ==> final(self).wf(),
            final(self).pstate() == st_error(
                old(self).pstate(),
                peek_error_msg(t, old(self).peek_token@.kind),
            ),
    {
        let mut m = String::from_str("\nexpected next token to be ");
        m.append(t.name());
        m.append(", got ");
        m.append(self.peek_token.token_type.name());
        m.append(" instead.");
        let ghost before = self.errors@;
        proof {
            lemma_view_errors_push(before, m);
        }
        self.errors.push(m);
        proof {
            assert(final(self).errors@.drop_last() =~= old(self).errors@);
            assert(final(self).pstate() =~= st_error(
                old(self).pstate(),
                peek_error_msg(t, old(self).peek_token@.kind),
            ));
        }
    }

    /// Record that no rule can start an expression here.
    fn no_prefix_parse_fn_error(&mut self)
        ensures
            final(self).tokens == old(self).tokens,
            final(self).pos == old(self).pos,
            final(self).cur_token == old(self).cur_token,
            final(self).peek_token == old(self).peek_token,
            final(self).incomplete == old(self).incomplete,
            final(self).errors@.len() == old(self).errors@.len() + 1,
            final(self).errors@.drop_last() == old(self).errors@,
            final(self).errors@.last()@ == no_prefix_msg(old(self).cur_token@.kind),
            final(self).measure() == old(self).measure(),
            old(self).wf() ==> final(self).wf(),
            final(self).pstate() == st_error(
                old(self).pstate(),
                no_prefix_msg(old(self).cur_token@.kind),
            ),
    {
        let mut m = String::from_str("no prefix parse function for ");
        m.append(self.cur_token.token_type.name());
        m.append(" found");
        let ghost before = self.errors@;
        proof {
            lemma_view_errors_push(before, m);
        }
        self.errors.push(m);
        proof {
            assert(final(self).errors@.drop_last() =~= old(self).errors@);
            assert(final(self).pstate() =~= st_error(
                old(self).pstate(),
                no_prefix_msg(old(self).cur_token@.kind),
            ));
        }
    }

    /// Step past the lookahead when it has the expected kind; otherwise
    /// record a diagnostic and stand still.
    fn expect_peek(&mut self, t: TokenType) -> (r: bool)
        requires
            old(self).wf(),
        ensures
            final(self).wf(),
            final(self).tokens == old(self).tokens,
            final(self).incomplete == old(self).incomplete,
            final(self).measure() <= old(self).measure(),
            r == (old(self).peek_token@.kind == t),
            r ==> final(self).cur_token@.kind == t,
            (r && t != TokenType::EOF) ==> final(self).measure() < old(self).measure(),
            !r ==> final(self).cur_token == old(self).cur_token && final(self).peek_token == old(
                self,
            ).peek_token && final(self).pos == old(self).pos,
            st_expect(old(self).pstate(), t) == (final(self).pstate(), r),
    {
        if self.peek_token_is(&t) {
            self.next_token();
            true
        } else {
            self.peek_error(t);
            false
        }
    }

    /// Parse the whole token stream into a program; statements that fail
    /// to parse are reported in `errors` and left out.
    pub fn parse_program(&mut self) -> (program: Program)
        requires
            old(self).wf(),
        ensures
            final(self).wf(),
            final(self).tokens == old(self).tokens,
            parse_program_s(old(self).pstate()) == ((final(self).pstate(), program@)),
            final(self).cur_token@.kind == TokenType::EOF,
            stmts_wf(program@),
    {
        proof {
            lemma_pstate(*self);
        }
        let ghost st0 = self.pstate();
        let mut statements: Vec<Statement> = Vec::new();
        proof {
            lemma_view_stmts(statements@);
            assert(view_stmts(statements@) =~= Seq::<StmtV>::empty());
        }
        while !self.cur_token_is(&TokenType::EOF)
            invariant
                self.wf(),
                self.tokens == old(self).tokens,
                stmts_wf(view_stmts(statements@)),
                view_stmts(statements@).len() == statements@.len(),
                parse_program_more_s(st0, Seq::empty()) == parse_program_more_s(
                    self.pstate(),
                    view_stmts(statements@),
                ),
            decreases self.measure(),
        {
            let ghost p0 = *self;
            let ghost acc0 = view_stmts(statements@);
            proof {
                lemma_pstate(p0);
            }
            match self.parse_statement() {
                Some(stmt) => {
                    let ghost before = statements@;
                    proof {
                        lemma_view_stmts_push(before, stmt);
                    }
                    statements.push(stmt);
                    proof {
                        assert(statements@ == before.push(stmt));
                        let svs = view_stmts(statements@);
                        assert(svs == view_stmts(before).push(view_stmt(stmt)));
                        assert forall|i: int| 0 <= i < svs.len() implies stmt_wf(
                            #[trigger] svs[i],
                        ) by {
                            if i < svs.len() - 1 {
                                assert(svs[i] == view_stmts(before)[i]);
                            }
                        }
                    }
                },
                None => {},
            }
            proof {
                lemma_cap_id(p0, *self);
            }
            self.next_token();
            proof {
                assert(parse_program_more_s(p0.pstate(), acc0) == parse_program_more_s(
                    self.pstate(),
                    view_stmts(statements@),
                ));
            }
        }
        Program { statements }
    }

    /// Parse one statement, dispatched on the current token.
    fn parse_statement(&mut self) -> (r: Option<Statement>)
        requires
            old(self).wf(),
        ensures
            final(self).wf(),
            final(self).tokens == old(self).tokens,
            final(self).measure() <= old(self).measure(),
            parse_stmt_s(old(self).pstate()) == ((
                final(self).pstate(),
                match r {
                    Some(s) => Some(view_stmt(s)),
                    None => Option::<StmtV>::None,
                },
            )),
            match r {
                Some(s) => stmt_wf(s@),
                None => true,
            },
        decreases old(self).measure(), 9int,
    {
        proof {
            lemma_pstate(*self);
        }
        if self.cur_token_is(&TokenType::LET) {
            self.parse_let_statement()
        } else if self.cur_token_is(&TokenType::RETURN) {
            self.parse_return_statement()
        } else {
            self.parse_expression_statement()
        }
    }

    /// `let <name> = <expression>;`
    fn parse_let_statement(&mut self) -> (r: Option<Statement>)
        requires
            old(self).wf(),
        ensures
            final(self).wf(),
            final(self).tokens == old(self).tokens,
            final(self).measure() <= old(self).measure(),
            parse_let_s(old(self).pstate()) == ((
                final(self).pstate(),
                match r {
                    Some(s) => Some(view_stmt(s)),
                    None => Option::<StmtV>::None,
                },
            )),
            match r {
                Some(s) => stmt_wf(s@),
                None => true,
            },
        decreases old(self).measure(), 8int,
    {
        proof {
            lemma_pstate(*self);
        }
        if !self.expect_peek(TokenType::IDENT) {
            return None;
        }
        let name = Expression::Identifier { value: self.cur_token.literal.clone() };
        if !self.expect_peek(TokenType::ASSIGN) {
            return None;
        }
        self.next_token();
        match self.parse_expression(Precedence::LOWEST) {
            Some(expression) => {
                let stmt = Statement::LetStatement { name, value: expression };
                if self.peek_token_is(&TokenType::SEMICOLON) {
                    self.next_token();
                }
                Some(stmt)
            },
            None => None,
        }
    }

    /// `return <expression>;`
    fn parse_return_statement(&mut self) -> (r: Option<Statement>)
        requires
            old(self).wf(),
        ensures
            final(self).wf(),
            final(self).tokens == old(self).tokens,
            final(self).measure() <= old(self).measure(),
            parse_return_s(old(self).pstate()) == ((
                final(self).pstate(),
                match r {
                    Some(s) => Some(view_stmt(s)),
                    None => Option::<StmtV>::None,
                },
            )),
            match r {
                Some(s) => stmt_wf(s@),
                None => true,
            },
        decreases old(self).measure(), 8int,
    {
        proof {
            lemma_pstate(*self);
        }
        self.next_token();
        match self.parse_expression(Precedence::LOWEST) {
            Some(expression) => {
                let stmt = Statement::ReturnStatement { return_value: expression };
                if self.peek_token_is(&TokenType::SEMICOLON) {
                    self.next_token();
                }
                Some(stmt)
            },
            None => None,
        }
    }

    /// A bare expression as a statement; a trailing semicolon is eaten.
    fn parse_expression_statement(&mut self) -> (r: Option<Statement>)
        requires
            old(self).wf(),
        ensures
            final(self).wf(),
            final(self).tokens == old(self).tokens,
            final(self).measure() <= old(self).measure(),
            parse_exprstmt_s(old(self).pstate()) == ((
                final(self).pstate(),
                match r {
                    Some(s) => Some(view_stmt(s)),
                    None => Option::<StmtV>::None,
                },
            )),
            match r {
                Some(s) => stmt_wf(s@),
                None => true,
            },
        decreases old(self).measure(), 8int,
    {
        proof {
            lemma_pstate(*self);
        }
        match self.parse_expression(Precedence::LOWEST) {
            Some(expression) => {
                let stmt = Statement::ExpressionStatement { expression };
                if self.peek_token_is(&TokenType::SEMICOLON) {
                    self.next_token();
                }
                Some(stmt)
            },
            None => None,
        }
    }

    /// The statements between `{` and `}`. Hitting end-of-input first
    /// marks the parse as incomplete for the front end.
    fn parse_block_statement(&mut self) -> (r: Option<Statement>)
        requires
            old(self).wf(),
        ensures
            final(self).wf(),
            final(self).tokens == old(self).tokens,
            final(self).measure() <= old(self).measure(),
            ({
                let (st2, bv) = parse_block_s(old(self).pstate());
                &&& final(self).pstate() == st2
                &&& (match r {
                    Some(b) => view_stmt(b) == bv,
                    None => false,
                })
            }),
            match r {
                Some(s) => is_block_stmt(s@) && stmt_wf(s@),
                None => false,
            },
        decreases old(self).measure(), 10int,
    {
        proof {
            lemma_pstate(*self);
        }
        let mut statements: Vec<Statement> = Vec::new();
        proof {
            lemma_view_stmts(statements@);
        }
        self.next_token();
        let ghost st1 = self.pstate();
        proof {
            assert(view_stmts(statements@) =~= Seq::<StmtV>::empty());
        }
        while !self.cur_token_is(&TokenType::RBRACE) && !self.cur_token_is(&TokenType::EOF)
            invariant
                self.wf(),
                self.tokens == old(self).tokens,
                self.measure() <= old(self).measure(),
                stmts_wf(view_stmts(statements@)),
                view_stmts(statements@).len() == statements@.len(),
                parse_block_more_s(st1, Seq::empty()) == parse_block_more_s(
                    self.pstate(),
                    view_stmts(statements@),
                ),
            decreases self.measure(),
        {
            let ghost p0 = *self;
            let ghost acc0 = view_stmts(statements@);
            proof {
                lemma_pstate(p0);
            }
            match self.parse_statement() {
                Some(stmt) => {
                    let ghost before = statements@;
                    proof {
                        lemma_view_stmts_push(before, stmt);
                    }
                    statements.push(stmt);
                    proof {
                        assert(statements@ == before.push(stmt));
                        let svs = view_stmts(statements@);
                        assert(svs == view_stmts(before).push(view_stmt(stmt)));
                        assert forall|i: int| 0 <= i < svs.len() implies stmt_wf(
                            #[trigger] svs[i],
                        ) by {
                            if i < svs.len() - 1 {
                                assert(svs[i] == view_stmts(before)[i]);
                            }
                        }
                    }
                },
                None => {},
            }
            proof {
                lemma_cap_id(p0, *self);
            }
            self.next_token();
            proof {
                assert(parse_block_more_s(p0.pstate(), acc0) == parse_block_more_s(
                    self.pstate(),
                    view_stmts(statements@),
                ));
            }
        }
        if self.cur_token_is(&TokenType::EOF) {
            self.incomplete = true;
            proof {
                let (st2, bv) = parse_block_s(old(self).pstate());
                assert(final(self).pstate() =~= st2);
            }
        } else {
            proof {
                let (st2, bv) = parse_block_s(old(self).pstate());
                assert(final(self).pstate() =~= st2);
            }
        }
        Some(Statement::BlockStatement { statements })
    }

    /// Precedence climbing: a prefix rule starts the expression, then
    /// tighter-binding infix operators fold onto it.
    fn parse_expression(&mut self, precedence: Precedence) -> (r: Option<Expression>)
        requires
            old(self).wf(),
        ensures
            final(self).wf(),
            final(self).tokens == old(self).tokens,
            final(self).measure() <= old(self).measure(),
            parse_expression_s(old(self).pstate(), precedence) == ((
                final(self).pstate(),
                match r {
                    Some(e) => Some(view_expr(e)),
                    None => Option::<ExprV>::None,
                },
            )),
            match r {
                Some(e) => expr_wf(e@),
                None => true,
            },
        decreases old(self).measure(), 7int,
    {
        proof {
            lemma_pstate(*self);
        }
        match self.parse_prefix_expression_fns() {
            Some(first) => {
                proof {
                    lemma_cap_id(*old(self), *self);
                }
                let mut left_exp = first;
                let min_rank = precedence_value(precedence);
                loop
                    invariant
                        self.wf(),
                        self.tokens == old(self).tokens,
                        self.measure() <= old(self).measure(),
                        expr_wf(left_exp@),
                        min_rank as int == prec_rank(precedence),
                        parse_expression_s(old(self).pstate(), precedence)
                            == parse_expr_more_s(self.pstate(), left_exp@, precedence),
                    ensures
                        self.wf(),
                        self.tokens == old(self).tokens,
                        self.measure() <= old(self).measure(),
                        expr_wf(left_exp@),
                        parse_expression_s(old(self).pstate(), precedence)
                            == parse_expr_more_s(self.pstate(), left_exp@, precedence),
                        self.peek_token@.kind == TokenType::SEMICOLON || !(prec_rank(precedence)
                            < prec_rank(spec_token_precedence(self.peek_token@.kind))),
                    decreases self.measure(),
                {
                    if self.peek_token_is(&TokenType::SEMICOLON) {
                        break ;
                    }
                    let pk = self.peek_precedence();
                    if !(min_rank < precedence_value(pk)) {
                        break ;
                    }
                    proof {
                        assert(self.peek_token@.kind != TokenType::EOF);
                        lemma_pstate(*self);
                    }
                    let ghost pentry = *self;
                    self.next_token();
                    let ghost p1 = *self;
                    let t = self.cur_token.token_type;
                    match self.parse_infix_expression_fns(t, Box::new(left_exp.clone())) {
                        Some(left_exp_new) => {
                            proof {
                                lemma_cap_id(p1, *self);
                                assert(parse_expr_more_s(pentry.pstate(), left_exp@, precedence)
                                    == parse_expr_more_s(
                                    self.pstate(),
                                    left_exp_new@,
                                    precedence,
                                ));
                            }
                            left_exp = left_exp_new;
                        },
                        None => {
                            proof {
                                assert(parse_expr_more_s(pentry.pstate(), left_exp@, precedence)
                                    == ((self.pstate(), Some(left_exp@))));
                            }
                            return Some(left_exp);
                        },
                    }
                }
                proof {
                    lemma_pstate(*self);
                    assert(parse_expr_more_s(self.pstate(), left_exp@, precedence) == ((
                        self.pstate(),
                        Some(left_exp@),
                    )));
                }
                Some(left_exp)
            },
            None => {
                self.no_prefix_parse_fn_error();
                None
            },
        }
    }

    /// The prefix rule for the current token, if it has one.
    fn parse_prefix_expression_fns(&mut self) -> (r: Option<Expression>)
        requires
            old(self).wf(),
        ensures
            final(self).wf(),
            final(self).tokens == old(self).tokens,
            final(self).measure() <= old(self).measure(),
            parse_prefix_fns_s(old(self).pstate()) == ((
                final(self).pstate(),
                match r {
                    Some(e) => Some(view_expr(e)),
                    None => Option::<ExprV>::None,
                },
            )),
            match r {
                Some(e) => expr_wf(e@),
                None => true,
            },
        decreases old(self).measure(), 6int,
    {
        proof {
            lemma_pstate(*self);
        }
        if self.cur_token_is(&TokenType::IDENT) {
            Some(self.parse_identifier())
        } else if self.cur_token_is(&TokenType::INT) {
            self.parse_integer_literal()
        } else if self.cur_token_is(&TokenType::STRING) {
            Some(Expression::StringLiteral { value: self.cur_token.literal.clone() })
        } else if self.cur_token_is(&TokenType::BANG) || self.cur_token_is(&TokenType::MINUS) {
            self.parse_prefix_expression()
        } else if self.cur_token_is(&TokenType::TRUE) || self.cur_token_is(&TokenType::FALSE) {
            Some(self.parse_boolean())
        } else if self.cur_token_is(&TokenType::LPAREN) {
            self.parse_grouped_expression()
        } else if self.cur_token_is(&TokenType::IF) {
            self.parse_if_expression()
        } else if self.cur_token_is(&TokenType::FUNCTION) {
            self.parse_function_literal()
        } else {
            None
        }
    }

    /// The infix rule for the consumed operator token, if it has one.
    fn parse_infix_expression_fns(&mut self, t: TokenType, left_exp: Box<Expression>) -> (r: Option<
        Expression,
    >)
        requires
            old(self).wf(),
            t == old(self).cur_token@.kind,
            expr_wf(left_exp@),
        ensures
            final(self).wf(),
            final(self).tokens == old(self).tokens,
            final(self).measure() <= old(self).measure(),
            parse_infix_fns_s(old(self).pstate(), t, left_exp@) == ((
                final(self).pstate(),
                match r {
                    Some(e) => Some(view_expr(e)),
                    None => Option::<ExprV>::None,
                },
            )),
            match r {
                Some(e) => expr_wf(e@),
                None => true,
            },
        decreases old(self).measure(), 6int,
    {
        proof {
            lemma_pstate(*self);
        }
        if t == TokenType::PLUS || t == TokenType::MINUS || t == TokenType::SLASH || t
            == TokenType::ASTERISK || t == TokenType::EQ || t == TokenType::NOTEQ || t
            == TokenType::LT || t == TokenType::GT {
            self.parse_infix_expression(left_exp)
        } else if t == TokenType::LPAREN {
            self.parse_call_expression(left_exp)
        } else {
            None
        }
    }

    /// `!x` or `-x`.
    fn parse_prefix_expression(&mut self) -> (r: Option<Expression>)
        requires
            old(self).wf(),
            old(self).cur_token@.kind != TokenType::EOF,
        ensures
            final(self).wf(),
            final(self).tokens == old(self).tokens,
            final(self).measure() <= old(self).measure(),
            parse_prefix_expr_s(old(self).pstate()) == ((
                final(self).pstate(),
                match r {
                    Some(e) => Some(view_expr(e)),
                    None => Option::<ExprV>::None,
                },
            )),
            match r {
                Some(e) => expr_wf(e@),
                None => true,
            },
        decreases old(self).measure(), 5int,
    {
        proof {
            lemma_pstate(*self);
        }
        let expression_operator = self.cur_token.literal.clone();
        self.next_token();
        match self.parse_expression(Precedence::PREFIX) {
            Some(right) => Some(
                Expression::PrefixExpression {
                    operator: expression_operator,
                    right: Box::new(right),
                },
            ),
            None => None,
        }
    }

    /// `left <op> right`, at the operator's own binding power.
    fn parse_infix_expression(&mut self, left: Box<Expression>) -> (r: Option<Expression>)
        requires
            old(self).wf(),
            old(self).cur_token@.kind != TokenType::EOF,
            expr_wf(left@),
        ensures
            final(self).wf(),
            final(self).tokens == old(self).tokens,
            final(self).measure() <= old(self).measure(),
            parse_infix_expr_s(old(self).pstate(), left@) == ((
                final(self).pstate(),
                match r {
                    Some(e) => Some(view_expr(e)),
                    None => Option::<ExprV>::None,
                },
            )),
            match r {
                Some(e) => expr_wf(e@),
                None => true,
            },
        decreases old(self).measure(), 5int,
    {
        proof {
            lemma_pstate(*self);
        }
        let operator = self.cur_token.literal.clone();
        let precedence = self.cur_precedence();
        self.next_token();
        match self.parse_expression(precedence) {
            Some(right) => Some(
                Expression::InfixExpression { left, operator, right: Box::new(right) },
            ),
            None => None,
        }
    }

    /// A call: the parsed expression so far becomes the callee.
    fn parse_call_expression(&mut self, function: Box<Expression>) -> (r: Option<Expression>)
        requires
            old(self).wf(),
            old(self).cur_token@.kind != TokenType::EOF,
            expr_wf(function@),
        ensures
            final(self).wf(),
            final(self).tokens == old(self).tokens,
            final(self).measure() <= old(self).measure(),
            parse_call_expr_s(old(self).pstate(), function@) == ((
                final(self).pstate(),
                match r {
                    Some(e) => Some(view_expr(e)),
                    None => Option::<ExprV>::None,
                },
            )),
            match r {
                Some(e) => expr_wf(e@),
                None => true,
            },
        decreases old(self).measure(), 5int,
    {
        proof {
            lemma_pstate(*self);
        }
        match self.parse_call_arguments() {
            Some(arguments) => Some(Expression::CallExpression { function, arguments }),
            None => None,
        }
    }

    /// The comma-separated argument list of a call.
    fn parse_call_arguments(&mut self) -> (r: Option<Vec<Expression>>)
        requires
            old(self).wf(),
            old(self).cur_token@.kind != TokenType::EOF,
        ensures
            final(self).wf(),
            final(self).tokens == old(self).tokens,
            final(self).measure() <= old(self).measure(),
            parse_call_args_s(old(self).pstate()) == ((
                final(self).pstate(),
                match r {
                    Some(v) => Some(view_exprs(v@)),
                    None => Option::<Seq<ExprV>>::None,
                },
            )),
            match r {
                Some(v) => exprs_wf(view_exprs(v@)),
                None => true,
            },
        decreases old(self).measure(), 4int,
    {
        proof {
            lemma_pstate(*self);
        }
        let mut args: Vec<Expression> = Vec::new();
        proof {
            lemma_view_exprs(args@);
        }
        if self.peek_token_is(&TokenType::RPAREN) {
            self.next_token();
            proof {
                assert(view_exprs(args@) =~= Seq::<ExprV>::empty());
            }
            return Some(args);
        }
        self.next_token();
        let ghost p1 = *self;
        match self.parse_expression(Precedence::LOWEST) {
            Some(expression) => {
                proof {
                    lemma_cap_id(p1, *self);
                }
                let ghost before = args@;
                proof {
                    lemma_view_exprs_push(before, expression);
                }
                args.push(expression);
                proof {
                    assert(args@ == before.push(expression));
                    assert(view_exprs(before) =~= Seq::<crate::ast::ExprV>::empty());
                    assert(exprs_wf(view_exprs(args@)));
                    assert(view_exprs(args@) =~= seq![view_expr(expression)]);
                }
                while self.peek_token_is(&TokenType::COMMA)
                    invariant
                        self.wf(),
                        self.tokens == old(self).tokens,
                        self.measure() <= old(self).measure(),
                        exprs_wf(view_exprs(args@)),
                        view_exprs(args@).len() == args@.len(),
                        ({
                            let (st3, r2) = parse_call_args_more_s(
                                self.pstate(),
                                view_exprs(args@),
                            );
                            parse_call_args_s(old(self).pstate()) == (match r2 {
                                Some(args2) => {
                                    let (st4, ok) = st_expect(st3, TokenType::RPAREN);
                                    if ok {
                                        (st4, Some(args2))
                                    } else {
                                        (st4, Option::<Seq<ExprV>>::None)
                                    }
                                },
                                None => (st3, Option::<Seq<ExprV>>::None),
                            })
                        }),
                    ensures
                        self.wf(),
                        self.tokens == old(self).tokens,
                        self.measure() <= old(self).measure(),
                        exprs_wf(view_exprs(args@)),
                        view_exprs(args@).len() == args@.len(),
                        ({
                            let (st3, r2) = parse_call_args_more_s(
                                self.pstate(),
                                view_exprs(args@),
                            );
                            parse_call_args_s(old(self).pstate()) == (match r2 {
                                Some(args2) => {
                                    let (st4, ok) = st_expect(st3, TokenType::RPAREN);
                                    if ok {
                                        (st4, Some(args2))
                                    } else {
                                        (st4, Option::<Seq<ExprV>>::None)
                                    }
                                },
                                None => (st3, Option::<Seq<ExprV>>::None),
                            })
                        }),
                        self.peek_token@.kind != TokenType::COMMA,
                    decreases self.measure(),
                {
                    let ghost pentry = *self;
                    let ghost acc0 = view_exprs(args@);
                    proof {
                        lemma_pstate(*self);
                    }
                    self.next_token();
                    let ghost pmid = *self;
                    self.next_token();
                    match self.parse_expression(Precedence::LOWEST) {
                        Some(exp) => {
                            proof {
                                lemma_cap_id(pmid, *self);
                                assert(st_cap(pmid.pstate(), self.pstate()) == self.pstate());
                            }
                            let ghost before = args@;
                            proof {
                                lemma_view_exprs_push(before, exp);
                            }
                            args.push(exp);
                            proof {
                                assert(args@ == before.push(exp));
                                let evs = view_exprs(args@);
                                assert(evs == view_exprs(before).push(view_expr(exp)));
                                assert forall|i: int| 0 <= i < evs.len() implies expr_wf(
                                    #[trigger] evs[i],
                                ) by {
                                    if i < evs.len() - 1 {
                                        assert(evs[i] == view_exprs(before)[i]);
                                    }
                                }
                                assert(parse_call_args_more_s(pentry.pstate(), acc0)
                                    == parse_call_args_more_s(self.pstate(), view_exprs(args@)));
                            }
                        },
                        None => {
                            proof {
                                assert(parse_call_args_more_s(pentry.pstate(), acc0) == ((
                                    self.pstate(),
                                    Option::<Seq<ExprV>>::None,
                                )));
                            }
                            return None;
                        },
                    }
                }
                proof {
                    lemma_pstate(*self);
                    assert(parse_call_args_more_s(self.pstate(), view_exprs(args@)) == ((
                        self.pstate(),
                        Some(view_exprs(args@)),
                    )));
                }
                if !self.expect_peek(TokenType::RPAREN) {
                    return None;
                }
                Some(args)
            },
            None => None,
        }
    }

    /// `if (<condition>) { ... }` with an optional `else { ... }`.
    #[verifier::rlimit(100)]
    fn parse_if_expression(&mut self) -> (r: Option<Expression>)
        requires
            old(self).wf(),
            old(self).cur_token@.kind != TokenType::EOF,
        ensures
            final(self).wf(),
            final(self).tokens == old(self).tokens,
            final(self).measure() <= old(self).measure(),
            parse_if_s(old(self).pstate()) == ((
                final(self).pstate(),
                match r {
                    Some(e) => Some(view_expr(e)),
                    None => Option::<ExprV>::None,
                },
            )),
            match r {
                Some(e) => expr_wf(e@),
                None => true,
            },
        decreases old(self).measure(), 5int,
    {
        proof {
            lemma_pstate(*self);
        }
        if !self.expect_peek(TokenType::LPAREN) {
            return None;
        }
        self.next_token();
        let ghost p2 = *self;
        match self.parse_expression(Precedence::LOWEST) {
            Some(condition) => {
                proof {
                    lemma_cap_id(p2, *self);
                }
                if !self.expect_peek(TokenType::RPAREN) {
                    return None;
                }
                if !self.expect_peek(TokenType::LBRACE) {
                    return None;
                }
                let ghost p5 = *self;
                match self.parse_block_statement() {
                    Some(consequence) => {
                        if self.peek_token_is(&TokenType::ELSE) {
                            proof {
                                lemma_cap_id(p5, *self);
                            }
                            self.next_token();
                            if !self.expect_peek(TokenType::LBRACE) {
                                return None;
                            }
                            match self.parse_block_statement() {
                                Some(alternative) => Some(
                                    Expression::IfExpression {
                                        condition: Box::new(condition),
                                        consequence: Box::new(consequence),
                                        alternative: Some(Box::new(alternative)),
                                    },
                                ),
                                None => None,
                            }
                        } else {
                            Some(
                                Expression::IfExpression {
                                    condition: Box::new(condition),
                                    consequence: Box::new(consequence),
                                    alternative: None,
                                },
                            )
                        }
                    },
                    None => None,
                }
            },
            None => None,
        }
    }

    /// `fn (<params>) { ... }`.
    fn parse_function_literal(&mut self) -> (r: Option<Expression>)
        requires
            old(self).wf(),
            old(self).cur_token@.kind != TokenType::EOF,
        ensures
            final(self).wf(),
            final(self).tokens == old(self).tokens,
            final(self).measure() <= old(self).measure(),
            parse_fn_literal_s(old(self).pstate()) == ((
                final(self).pstate(),
                match r {
                    Some(e) => Some(view_expr(e)),
                    None => Option::<ExprV>::None,
                },
            )),
            match r {
                Some(e) => expr_wf(e@),
                None => true,
            },
        decreases old(self).measure(), 5int,
    {
        proof {
            lemma_pstate(*self);
        }
        if !self.expect_peek(TokenType::LPAREN) {
            return None;
        }
        let ghost p1 = *self;
        match self.parse_function_parameters() {
            Some(parameters) => {
                proof {
                    lemma_cap_id(p1, *self);
                }
                if !self.expect_peek(TokenType::LBRACE) {
                    return None;
                }
                match self.parse_block_statement() {
                    Some(body) => Some(
                        Expression::FunctionLiteral { parameters, body: Box::new(body) },
                    ),
                    None => None,
                }
            },
            None => None,
        }
    }

    /// The current token as an identifier expression.
    fn parse_identifier(&self) -> (r: Expression)
        ensures
            r@ == (crate::ast::ExprV::Ident { name: self.cur_token@.lit }),
    {
        Expression::Identifier { value: self.cur_token.literal.clone() }
    }

    /// The current token as an integer literal; a malformed or oversized
    /// number is reported instead.
    fn parse_integer_literal(&mut self) -> (r: Option<Expression>)
        ensures
            final(self).tokens == old(self).tokens,
            final(self).pos == old(self).pos,
            final(self).cur_token == old(self).cur_token,
            final(self).peek_token == old(self).peek_token,
            final(self).incomplete == old(self).incomplete,
            final(self).measure() == old(self).measure(),
            old(self).wf() ==> final(self).wf(),
            match spec_parse_i64(old(self).cur_token@.lit) {
                Some(v) => r == Some(Expression::IntegerLiteral { value: v as i64 })
                    && final(self).errors == old(self).errors,
                None => r.is_none() && final(self).errors@.len() == old(self).errors@.len() + 1,
            },
            match r {
                Some(e) => expr_wf(e@),
                None => true,
            },
            parse_int_s(old(self).pstate()) == ((
                final(self).pstate(),
                match r {
                    Some(e) => Some(view_expr(e)),
                    None => Option::<ExprV>::None,
                },
            )),
    {
        let lit = self.cur_token.literal.clone();
        let ghost s = lit@;
        let n = lit.as_str().unicode_len();
        let mut ok = n > 0;
        let mut acc: i64 = 0;
        let mut i: usize = 0;
        proof {
            assert(s.take(0) =~= Seq::<char>::empty());
        }
        while i < n && ok
            invariant
                n == s.len(),
                s == lit@,
                s == old(self).cur_token@.lit,
                i <= n,
                ok ==> (forall|k: int| 0 <= k < i ==> crate::lexer::is_digit(#[trigger] s[k])),
                ok ==> acc as int == digits_val(s.take(i as int)),
                ok ==> acc >= 0,
                ok ==> n > 0,
                !ok ==> spec_parse_i64(s).is_none(),
            decreases n - i,
        {
            let c = lit.as_str().get_char(i);
            if !('0' <= c && c <= '9') {
                proof {
                    assert(!crate::lexer::is_digit(s[i as int]));
                    assert(spec_parse_i64(s).is_none());
                }
                ok = false;
            } else {
                proof {
                    assert(crate::lexer::is_digit(s[i as int]));
                    assert(forall|k: int| 0 <= k < i + 1 ==> crate::lexer::is_digit(
                        #[trigger] s[k],
                    ));
                    assert(s.take(i + 1).drop_last() =~= s.take(i as int));
                    assert(s.take(i + 1).last() == s[i as int]);
                }
                let d = (c as u32) as i64 - 48;
                match acc.checked_mul(10) {
                    Some(t10) => {
                        match t10.checked_add(d) {
                            Some(t) => {
                                acc = t;
                            },
                            None => {
                                proof {
                                    overflow_means_unparseable(s, i + 1);
                                }
                                ok = false;
                            },
                        }
                    },
                    None => {
                        proof {
                            overflow_means_unparseable(s, i + 1);
                        }
                        ok = false;
                    },
                }
            }
            i = i + 1;
        }
        if ok {
            proof {
                assert(s.take(n as int) =~= s);
            }
            Some(Expression::IntegerLiteral { value: acc })
        } else {
            let mut m = String::from_str("could not parse ");
            m.append(lit.as_str());
            m.append(" as integer");
            let ghost before = self.errors@;
            proof {
                lemma_view_errors_push(before, m);
            }
            self.errors.push(m);
            proof {
                assert(final(self).errors@.drop_last() =~= old(self).errors@);
                assert(final(self).pstate() =~= st_error(
                    old(self).pstate(),
                    int_error_msg(old(self).cur_token@.lit),
                ));
            }
            None
        }
    }

    /// The current token as a boolean literal.
    fn parse_boolean(&self) -> (r: Expression)
        ensures
            r@ == (crate::ast::ExprV::Bool { value: self.cur_token@.kind == TokenType::TRUE }),
    {
        Expression::Boolean { value: self.cur_token_is(&TokenType::TRUE) }
    }

    /// `( <expression> )`.
    fn parse_grouped_expression(&mut self) -> (r: Option<Expression>)
        requires
            old(self).wf(),
            old(self).cur_token@.kind != TokenType::EOF,
        ensures
            final(self).wf(),
            final(self).tokens == old(self).tokens,
            final(self).measure() <= old(self).measure(),
            parse_grouped_s(old(self).pstate()) == ((
                final(self).pstate(),
                match r {
                    Some(e) => Some(view_expr(e)),
                    None => Option::<ExprV>::None,
                },
            )),
            match r {
                Some(e) => expr_wf(e@),
                None => true,
            },
        decreases old(self).measure(), 5int,
    {
        proof {
            lemma_pstate(*self);
        }
        self.next_token();
        let exp = self.parse_expression(Precedence::LOWEST);
        if !self.expect_peek(TokenType::RPAREN) {
            return None;
        }
        exp
    }

    /// The comma-separated parameter names of a function literal.
    fn parse_function_parameters(&mut self) -> (r: Option<Vec<Expression>>)
        requires
            old(self).wf(),
        ensures
            final(self).wf(),
            final(self).tokens == old(self).tokens,
            final(self).measure() <= old(self).measure(),
            parse_params_s(old(self).pstate()) == ((
                final(self).pstate(),
                match r {
                    Some(v) => Some(view_exprs(v@)),
                    None => Option::<Seq<ExprV>>::None,
                },
            )),
            match r {
                Some(v) => exprs_all_ident(view_exprs(v@)),
                None => true,
            },
    {
        proof {
            lemma_pstate(*self);
        }
        let mut parameters: Vec<Expression> = Vec::new();
        proof {
            lemma_view_exprs(parameters@);
        }
        if self.peek_token_is(&TokenType::RPAREN) {
            self.next_token();
            proof {
                assert(view_exprs(parameters@) =~= Seq::<ExprV>::empty());
            }
            return Some(parameters);
        }
        self.next_token();
        let first = Expression::Identifier { value: self.cur_token.literal.clone() };
        let ghost before0 = parameters@;
        proof {
            lemma_view_exprs_push(before0, first);
        }
        parameters.push(first);
        proof {
            assert(view_exprs(before0) =~= Seq::<crate::ast::ExprV>::empty());
            assert(view_exprs(parameters@) =~= seq![view_expr(first)]);
        }
        let ghost target = parse_params_more_s(self.pstate(), view_exprs(parameters@));
        while self.peek_token_is(&TokenType::COMMA)
            invariant
                self.wf(),
                self.tokens == old(self).tokens,
                self.measure() <= old(self).measure(),
                exprs_all_ident(view_exprs(parameters@)),
                view_exprs(parameters@).len() == parameters@.len(),
                target == parse_params_more_s(self.pstate(), view_exprs(parameters@)),
            ensures
                self.wf(),
                self.tokens == old(self).tokens,
                self.measure() <= old(self).measure(),
                exprs_all_ident(view_exprs(parameters@)),
                view_exprs(parameters@).len() == parameters@.len(),
                target == parse_params_more_s(self.pstate(), view_exprs(parameters@)),
                self.peek_token@.kind != TokenType::COMMA,
            decreases self.measure(),
        {
            let ghost pentry = *self;
            let ghost acc0 = view_exprs(parameters@);
            proof {
                lemma_pstate(*self);
            }
            self.next_token();
            self.next_token();
            let next_param = Expression::Identifier { value: self.cur_token.literal.clone() };
            let ghost before = parameters@;
            proof {
                lemma_view_exprs_push(before, next_param);
            }
            parameters.push(next_param);
            proof {
                assert(parameters@ == before.push(next_param));
                let evs = view_exprs(parameters@);
                assert(evs == view_exprs(before).push(view_expr(next_param)));
                assert forall|i: int| 0 <= i < evs.len() implies is_ident_expr(
                    #[trigger] evs[i],
                ) by {
                    if i < evs.len() - 1 {
                        assert(evs[i] == view_exprs(before)[i]);
                    }
                }
                assert(parse_params_more_s(pentry.pstate(), acc0) == parse_params_more_s(
                    self.pstate(),
                    view_exprs(parameters@),
                ));
            }
        }
        if !self.expect_peek(TokenType::RPAREN) {
            return None;
        }
        Some(parameters)
    }
}

proof fn overflow_means_unparseable(s: Seq<char>, i: int)
    requires
        0 < i <= s.len(),
        forall|k: int| 0 <= k < i ==> crate::lexer::is_digit(#[trigger] s[k]),
        digits_val(s.take(i)) > i64::MAX,
    ensures
        spec_parse_i64(s).is_none(),
{
    if (forall|k: int| 0 <= k < s.len() ==> crate::lexer::is_digit(#[trigger] s[k])) {
        lemma_digits_val_mono(s, i, s.len() as int);
        assert(s.take(s.len() as int) =~= s);
    }
}


proof fn lemma_dec_rep_digits(n: nat)
    ensures
        dec_rep(n).len() > 0,
        forall|i: int| 0 <= i < dec_rep(n).len() ==> crate::lexer::is_digit(
            #[trigger] dec_rep(n)[i],
        ),
    decreases n,
{
    if n < 10 {
    } else {
        lemma_dec_rep_digits(n / 10);
        let s = dec_rep(n);
        assert(s == dec_rep(n / 10) + seq![crate::strutil::digit_char(n % 10)]);
        assert forall|i: int| 0 <= i < s.len() implies crate::lexer::is_digit(
            #[trigger] s[i],
        ) by {
            if i < dec_rep(n / 10).len() {
                assert(s[i] == dec_rep(n / 10)[i]);
            }
        }
    }
}

proof fn lemma_dec_rep_value(n: nat)
    ensures
        digits_val(dec_rep(n)) == n,
    decreases n,
{
    if n < 10 {
        assert(dec_rep(n) == seq![crate::strutil::digit_char(n)]);
        assert(dec_rep(n).drop_last() =~= Seq::<char>::empty());
        assert(crate::strutil::digit_char(n) as int - 48 == n);
        assert(digits_val(Seq::<char>::empty()) == 0);
    } else {
        lemma_dec_rep_value(n / 10);
        let s = dec_rep(n);
        assert(s == dec_rep(n / 10) + seq![crate::strutil::digit_char(n % 10)]);
        assert(s.drop_last() =~= dec_rep(n / 10));
        assert(s.last() == crate::strutil::digit_char(n % 10));
        assert(crate::strutil::digit_char(n % 10) as int - 48 == n % 10);
    }
}

/// One piece of the stable-rendering property: the decimal rendering of
/// a nonnegative in-range integer parses back to the very same value.
pub proof fn lemma_int_render_reparse(n: nat)
    requires
        n <= i64::MAX,
    ensures
        spec_parse_i64(dec_rep(n)) == Some(n as int),
{
    lemma_dec_rep_digits(n);
    lemma_dec_rep_value(n);
}


/// The definitional parser: a whole program. Statements are parsed in
/// turn; one that fails is left out and the walk continues at the next
/// statement.
pub open spec fn parse_program_s(st: PState) -> (PState, Seq<StmtV>)
    decreases st_measure(st), 110int,
{
    if !st_wf(st) {
        (st, Seq::empty())
    } else {
        parse_program_more_s(st, Seq::empty())
    }
}

pub open spec fn parse_program_more_s(st: PState, acc: Seq<StmtV>) -> (PState, Seq<StmtV>)
    decreases st_measure(st), 105int,
{
    if !st_wf(st) || st.cur.kind == TokenType::EOF {
        (st, acc)
    } else {
        let (st1, r) = parse_stmt_s(st);
        let st1c = st_cap(st, st1);
        let acc2 = match r {
            Some(stmt) => acc.push(stmt),
            None => acc,
        };
        parse_program_more_s(st_next(st1c), acc2)
    }
}

/// One statement, dispatched on the current token.
pub open spec fn parse_stmt_s(st: PState) -> (PState, Option<StmtV>)
    decreases st_measure(st), 90int,
{
    if !st_wf(st) {
        (st, None)
    } else if st.cur.kind == TokenType::LET {
        parse_let_s(st)
    } else if st.cur.kind == TokenType::RETURN {
        parse_return_s(st)
    } else {
        parse_exprstmt_s(st)
    }
}

pub open spec fn parse_let_s(st: PState) -> (PState, Option<StmtV>)
    decreases st_measure(st), 80int,
{
    if !st_wf(st) {
        (st, None)
    } else {
        let (st1, ok1) = st_expect(st, TokenType::IDENT);
        if !ok1 {
            (st1, None)
        } else {
            let name = ExprV::Ident { name: st1.cur.lit };
            let (st2, ok2) = st_expect(st1, TokenType::ASSIGN);
            if !ok2 {
                (st2, None)
            } else {
                let st3 = st_next(st2);
                let (st4, r) = parse_expression_s(st3, Precedence::LOWEST);
                match r {
                    Some(value) => {
                        let stmt = StmtV::Let { name: Box::new(name), value: Box::new(value) };
                        if st4.peek.kind == TokenType::SEMICOLON {
                            (st_next(st4), Some(stmt))
                        } else {
                            (st4, Some(stmt))
                        }
                    },
                    None => (st4, None),
                }
            }
        }
    }
}

pub open spec fn parse_return_s(st: PState) -> (PState, Option<StmtV>)
    decreases st_measure(st), 80int,
{
    if !st_wf(st) {
        (st, None)
    } else {
        let st1 = st_next(st);
        let (st2, r) = parse_expression_s(st1, Precedence::LOWEST);
        match r {
            Some(value) => {
                let stmt = StmtV::Return { value: Box::new(value) };
                if st2.peek.kind == TokenType::SEMICOLON {
                    (st_next(st2), Some(stmt))
                } else {
                    (st2, Some(stmt))
                }
            },
            None => (st2, None),
        }
    }
}

pub open spec fn parse_exprstmt_s(st: PState) -> (PState, Option<StmtV>)
    decreases st_measure(st), 80int,
{
    if !st_wf(st) {
        (st, None)
    } else {
        let (st1, r) = parse_expression_s(st, Precedence::LOWEST);
        match r {
            Some(e) => {
                let stmt = StmtV::Expr { expression: Box::new(e) };
                if st1.peek.kind == TokenType::SEMICOLON {
                    (st_next(st1), Some(stmt))
                } else {
                    (st1, Some(stmt))
                }
            },
            None => (st1, None),
        }
    }
}

/// A block: the statements up to the closing brace; hitting end-of-input
/// first marks the parse as incomplete.
pub open spec fn parse_block_s(st: PState) -> (PState, StmtV)
    decreases st_measure(st), 100int,
{
    if !st_wf(st) {
        (st, StmtV::Block { statements: Seq::empty() })
    } else {
        let st1 = st_next(st);
        let (st2, stmts) = parse_block_more_s(st1, Seq::empty());
        let st3 = if st2.cur.kind == TokenType::EOF {
            PState { incomplete: true, ..st2 }
        } else {
            st2
        };
        (st3, StmtV::Block { statements: stmts })
    }
}

pub open spec fn parse_block_more_s(st: PState, acc: Seq<StmtV>) -> (PState, Seq<StmtV>)
    decreases st_measure(st), 95int,
{
    if !st_wf(st) || st.cur.kind == TokenType::RBRACE || st.cur.kind == TokenType::EOF {
        (st, acc)
    } else {
        let (st1, r) = parse_stmt_s(st);
        let st1c = st_cap(st, st1);
        let acc2 = match r {
            Some(stmt) => acc.push(stmt),
            None => acc,
        };
        parse_block_more_s(st_next(st1c), acc2)
    }
}

/// Precedence climbing: a prefix rule starts the expression, then
/// tighter-binding operators fold onto it.
pub open spec fn parse_expression_s(st: PState, minp: Precedence) -> (PState, Option<ExprV>)
    decreases st_measure(st), 70int,
{
    if !st_wf(st) {
        (st, None)
    } else {
        let (st1, r) = parse_prefix_fns_s(st);
        match r {
            Some(left) => parse_expr_more_s(st_cap(st, st1), left, minp),
            None => (st_error(st1, no_prefix_msg(st1.cur.kind)), None),
        }
    }
}

pub open spec fn parse_expr_more_s(st: PState, left: ExprV, minp: Precedence) -> (
    PState,
    Option<ExprV>,
)
    decreases st_measure(st), 65int,
{
    if !st_wf(st) {
        (st, Some(left))
    } else if st.peek.kind == TokenType::SEMICOLON {
        (st, Some(left))
    } else if !(prec_rank(minp) < prec_rank(spec_token_precedence(st.peek.kind))) {
        (st, Some(left))
    } else {
        let st1 = st_next(st);
        let (st2, r) = parse_infix_fns_s(st1, st1.cur.kind, left);
        match r {
            Some(newleft) => parse_expr_more_s(st_cap(st1, st2), newleft, minp),
            None => (st2, Some(left)),
        }
    }
}

/// The prefix rule of the current token, if it has one.
pub open spec fn parse_prefix_fns_s(st: PState) -> (PState, Option<ExprV>)
    decreases st_measure(st), 60int,
{
    if !st_wf(st) {
        (st, None)
    } else if st.cur.kind == TokenType::IDENT {
        (st, Some(ExprV::Ident { name: st.cur.lit }))
    } else if st.cur.kind == TokenType::INT {
        parse_int_s(st)
    } else if st.cur.kind == TokenType::STRING {
        (st, Some(ExprV::Str { value: st.cur.lit }))
    } else if st.cur.kind == TokenType::BANG || st.cur.kind == TokenType::MINUS {
        parse_prefix_expr_s(st)
    } else if st.cur.kind == TokenType::TRUE || st.cur.kind == TokenType::FALSE {
        (st, Some(ExprV::Bool { value: st.cur.kind == TokenType::TRUE }))
    } else if st.cur.kind == TokenType::LPAREN {
        parse_grouped_s(st)
    } else if st.cur.kind == TokenType::IF {
        parse_if_s(st)
    } else if st.cur.kind == TokenType::FUNCTION {
        parse_fn_literal_s(st)
    } else {
        (st, None)
    }
}

/// The infix rule of the consumed operator token, if it has one.
pub open spec fn parse_infix_fns_s(st: PState, t: TokenType, left: ExprV) -> (
    PState,
    Option<ExprV>,
)
    decreases st_measure(st), 60int,
{
    if !st_wf(st) {
        (st, None)
    } else if t == TokenType::PLUS || t == TokenType::MINUS || t == TokenType::SLASH || t
        == TokenType::ASTERISK || t == TokenType::EQ || t == TokenType::NOTEQ || t == TokenType::LT
        || t == TokenType::GT {
        parse_infix_expr_s(st, left)
    } else if t == TokenType::LPAREN {
        parse_call_expr_s(st, left)
    } else {
        (st, None)
    }
}

/// The current token as an integer literal, or the complaint about it.
pub open spec fn parse_int_s(st: PState) -> (PState, Option<ExprV>) {
    match spec_parse_i64(st.cur.lit) {
        Some(v) => (st, Some(ExprV::Int { value: v })),
        None => (st_error(st, int_error_msg(st.cur.lit)), None),
    }
}

pub open spec fn parse_prefix_expr_s(st: PState) -> (PState, Option<ExprV>)
    decreases st_measure(st), 50int,
{
    if !st_wf(st) || st.cur.kind == TokenType::EOF {
        (st, None)
    } else {
        let op = st.cur.lit;
        let st1 = st_next(st);
        let (st2, r) = parse_expression_s(st1, Precedence::PREFIX);
        match r {
            Some(right) => (st2, Some(ExprV::Prefix { op, right: Box::new(right) })),
            None => (st2, None),
        }
    }
}

pub open spec fn parse_infix_expr_s(st: PState, left: ExprV) -> (PState, Option<ExprV>)
    decreases st_measure(st), 50int,
{
    if !st_wf(st) || st.cur.kind == TokenType::EOF {
        (st, None)
    } else {
        let op = st.cur.lit;
        let p = spec_token_precedence(st.cur.kind);
        let st1 = st_next(st);
        let (st2, r) = parse_expression_s(st1, p);
        match r {
            Some(right) => (
                st2,
                Some(ExprV::Infix { left: Box::new(left), op, right: Box::new(right) }),
            ),
            None => (st2, None),
        }
    }
}

pub open spec fn parse_call_expr_s(st: PState, func: ExprV) -> (PState, Option<ExprV>)
    decreases st_measure(st), 50int,
{
    if !st_wf(st) || st.cur.kind == TokenType::EOF {
        (st, None)
    } else {
        let (st1, r) = parse_call_args_s(st);
        match r {
            Some(args) => (st1, Some(ExprV::Call { func: Box::new(func), args })),
            None => (st1, None),
        }
    }
}

pub open spec fn parse_call_args_s(st: PState) -> (PState, Option<Seq<ExprV>>)
    decreases st_measure(st), 45int,
{
    if !st_wf(st) || st.cur.kind == TokenType::EOF {
        (st, None)
    } else if st.peek.kind == TokenType::RPAREN {
        (st_next(st), Some(Seq::empty()))
    } else {
        let st1 = st_next(st);
        let (st2, r) = parse_expression_s(st1, Precedence::LOWEST);
        match r {
            Some(e) => {
                let (st3, r2) = parse_call_args_more_s(st_cap(st1, st2), seq![e]);
                match r2 {
                    Some(args) => {
                        let (st4, ok) = st_expect(st3, TokenType::RPAREN);
                        if ok {
                            (st4, Some(args))
                        } else {
                            (st4, None)
                        }
                    },
                    None => (st3, None),
                }
            },
            None => (st2, None),
        }
    }
}

pub open spec fn parse_call_args_more_s(st: PState, acc: Seq<ExprV>) -> (
    PState,
    Option<Seq<ExprV>>,
)
    decreases st_measure(st), 42int,
{
    if !st_wf(st) || st.peek.kind != TokenType::COMMA {
        (st, Some(acc))
    } else {
        let st1 = st_next(st);
        let st2 = st_next(st1);
        let (st3, r) = parse_expression_s(st2, Precedence::LOWEST);
        match r {
            Some(e) => parse_call_args_more_s(st_cap(st1, st3), acc.push(e)),
            None => (st3, None),
        }
    }
}

pub open spec fn parse_if_s(st: PState) -> (PState, Option<ExprV>)
    decreases st_measure(st), 50int,
{
    if !st_wf(st) {
        (st, None)
    } else {
        let (st1, ok1) = st_expect(st, TokenType::LPAREN);
        if !ok1 {
            (st1, None)
        } else {
            let st2 = st_next(st1);
            let (st3, rc) = parse_expression_s(st2, Precedence::LOWEST);
            match rc {
                Some(cond) => {
                    let st3c = st_cap(st2, st3);
                    let (st4, ok2) = st_expect(st3c, TokenType::RPAREN);
                    if !ok2 {
                        (st4, None)
                    } else {
                        let (st5, ok3) = st_expect(st4, TokenType::LBRACE);
                        if !ok3 {
                            (st5, None)
                        } else {
                            let (st6, cons) = parse_block_s(st5);
                            if st6.peek.kind == TokenType::ELSE {
                                let st6c = st_cap(st5, st6);
                                let st7 = st_next(st6c);
                                let (st8, ok4) = st_expect(st7, TokenType::LBRACE);
                                if !ok4 {
                                    (st8, None)
                                } else {
                                    let (st9, alt) = parse_block_s(st8);
                                    (
                                        st9,
                                        Some(
                                            ExprV::If {
                                                cond: Box::new(cond),
                                                cons: Box::new(cons),
                                                alt: Some(Box::new(alt)),
                                            },
                                        ),
                                    )
                                }
                            } else {
                                (
                                    st6,
                                    Some(
                                        ExprV::If {
                                            cond: Box::new(cond),
                                            cons: Box::new(cons),
                                            alt: None,
                                        },
                                    ),
                                )
                            }
                        }
                    }
                },
                None => (st3, None),
            }
        }
    }
}

pub open spec fn parse_fn_literal_s(st: PState) -> (PState, Option<ExprV>)
    decreases st_measure(st), 50int,
{
    if !st_wf(st) {
        (st, None)
    } else {
        let (st1, ok1) = st_expect(st, TokenType::LPAREN);
        if !ok1 {
            (st1, None)
        } else {
            let (st2, rp) = parse_params_s(st1);
            match rp {
                Some(params) => {
                    let st2c = st_cap(st1, st2);
                    let (st3, ok2) = st_expect(st2c, TokenType::LBRACE);
                    if !ok2 {
                        (st3, None)
                    } else {
                        let (st4, body) = parse_block_s(st3);
                        (st4, Some(ExprV::Func { params, body: Box::new(body) }))
                    }
                },
                None => (st2, None),
            }
        }
    }
}

pub open spec fn parse_grouped_s(st: PState) -> (PState, Option<ExprV>)
    decreases st_measure(st), 50int,
{
    if !st_wf(st) || st.cur.kind == TokenType::EOF {
        (st, None)
    } else {
        let st1 = st_next(st);
        let (st2, r) = parse_expression_s(st1, Precedence::LOWEST);
        let (st3, ok) = st_expect(st2, TokenType::RPAREN);
        if !ok {
            (st3, None)
        } else {
            (st3, r)
        }
    }
}

pub open spec fn parse_params_s(st: PState) -> (PState, Option<Seq<ExprV>>)
    decreases st_measure(st), 45int,
{
    if !st_wf(st) {
        (st, None)
    } else if st.peek.kind == TokenType::RPAREN {
        (st_next(st), Some(Seq::empty()))
    } else {
        let st1 = st_next(st);
        let first = ExprV::Ident { name: st1.cur.lit };
        let (st2, ps) = parse_params_more_s(st1, seq![first]);
        let (st3, ok) = st_expect(st2, TokenType::RPAREN);
        if ok {
            (st3, Some(ps))
        } else {
            (st3, None)
        }
    }
}

pub open spec fn parse_params_more_s(st: PState, acc: Seq<ExprV>) -> (PState, Seq<ExprV>)
    decreases st_measure(st), 42int,
{
    if !st_wf(st) || st.peek.kind != TokenType::COMMA {
        (st, acc)
    } else {
        let st1 = st_next(st);
        let st2 = st_next(st1);
        parse_params_more_s(st2, acc.push(ExprV::Ident { name: st2.cur.lit }))
    }
}

} // verus!
