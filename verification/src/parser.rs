use vstd::prelude::*;

use crate::ast::{Expr, ExprKind, ExprV};
use crate::environment::Environment;
use crate::lexer::{lex_next, opt_tok_view, Lexer, Token, TokenV};

verus! {

// ---------------------------------------------------------------------------
// The token source, as mathematics: the current token and the bytes left
// ---------------------------------------------------------------------------

/// Abstract state of a token source: the current token and the unscanned
/// bytes behind it.
pub ghost struct LexSt {
    pub cur: Option<TokenV>,
    pub rest: Seq<u8>,
}

/// The abstract state of a lexer.
pub open spec fn st_of(l: Lexer) -> LexSt {
    LexSt { cur: opt_tok_view(l.buffer), rest: l.remaining() }
}

/// Scanning one token forward.
pub open spec fn advance(st: LexSt) -> LexSt {
    LexSt { cur: lex_next(st.rest).0, rest: lex_next(st.rest).1 }
}

/// How much input a token still stands for: one byte's worth, unless it is
/// the end marker or a failed scan.
pub open spec fn tok_cost(t: Option<TokenV>) -> nat {
    match t {
        Some(TokenV::EOF) => 0,
        None => 0,
        Some(_) => 1,
    }
}

/// The parser's termination measure: unscanned bytes plus the buffered
/// token.
pub open spec fn msr(st: LexSt) -> nat {
    st.rest.len() + tok_cost(st.cur)
}

/// Advancing never grows the measure, and shrinks it strictly while the
/// current token stands for input.
pub proof fn lemma_advance_msr(st: LexSt)
    ensures
        msr(advance(st)) <= st.rest.len(),
        tok_cost(st.cur) == 1 ==> msr(advance(st)) < msr(st),
{
    crate::lexer::lemma_lex_next_consumes(st.rest);
}

// ---------------------------------------------------------------------------
// The grammar, as mathematics: what one parse step yields
// ---------------------------------------------------------------------------

/// The precedence of a binary operator, `-1` when it is not registered.
pub open spec fn prec_of(m: Map<char, u32>, t: Option<TokenV>) -> int {
    match t {
        Some(TokenV::Misc(c)) => if m.contains_key(c) {
            m[c] as int
        } else {
            -1
        },
        _ => -1,
    }
}

/// The name of the anonymous top-level function.
pub open spec fn anon_name() -> Seq<char> {
    seq!['_', '_', 'a', 'n', 'o', 'n']
}

/// A number literal in expression position.
pub open spec fn sp_number(st: LexSt) -> (ExprV, LexSt) {
    match st.cur {
        Some(TokenV::Number(x)) => (ExprV::Number(x), advance(st)),
        _ => (ExprV::Number(Seq::empty()), st),
    }
}

/// A parenthesised expression: `(`, an expression, `)`.
pub open spec fn sp_paren(m: Map<char, u32>, st: LexSt) -> (Option<ExprV>, LexSt)
    decreases msr(st), 1int,
    via sp_paren_decreases
{
    let st1 = advance(st);
    if msr(st1) < msr(st) {
        let (e, st2) = sp_expression(m, st1);
        match e {
            None => (None, st2),
            Some(inner) => match st2.cur {
                Some(TokenV::Misc(c)) => if c == ')' {
                    (Some(inner), advance(st2))
                } else {
                    (None, st2)
                },
                _ => (None, st2),
            },
        }
    } else {
        (None, st)
    }
}

/// After an identifier: a plain variable, or a call with a parenthesised
/// argument list.
pub open spec fn sp_ident_prefixed(m: Map<char, u32>, name: Seq<char>, st: LexSt) -> (
    Option<ExprV>,
    LexSt,
)
    decreases msr(st), 1int,
{
    let st1 = advance(st);
    match st1.cur {
        Some(TokenV::Misc(c)) => if c == '(' && msr(advance(st1)) < msr(st) {
            sp_call_args(m, name, Seq::empty(), advance(st1))
        } else {
            (Some(ExprV::Variable(name)), st1)
        },
        _ => (Some(ExprV::Variable(name)), st1),
    }
}

/// The comma-separated argument list of a call, up to and including the
/// closing parenthesis.
pub open spec fn sp_call_args(m: Map<char, u32>, callee: Seq<char>, acc: Seq<ExprV>, st: LexSt) -> (
    Option<ExprV>,
    LexSt,
)
    decreases msr(st), 6int,
{
    if st.cur == Some(TokenV::Misc(')')) {
        (Some(ExprV::Call(callee, acc)), advance(st))
    } else {
        let (e, st1) = sp_expression(m, st);
        match e {
            None => (None, st1),
            Some(arg) => match st1.cur {
                Some(TokenV::Misc(c)) => if c == ')' {
                    (Some(ExprV::Call(callee, acc.push(arg))), advance(st1))
                } else if c == ',' && msr(advance(st1)) < msr(st) {
                    sp_call_args(m, callee, acc.push(arg), advance(st1))
                } else {
                    (None, st1)
                },
                _ => (None, st1),
            },
        }
    }
}

/// A primary expression: a number, an identifier-led expression, or a
/// parenthesised expression.
pub open spec fn sp_primary(m: Map<char, u32>, st: LexSt) -> (Option<ExprV>, LexSt)
    decreases msr(st), 2int,
{
    match st.cur {
        Some(TokenV::Identifier(n)) => sp_ident_prefixed(m, n, st),
        Some(TokenV::Number(x)) => (Some(sp_number(st).0), sp_number(st).1),
        Some(TokenV::Misc(c)) => if c == '(' {
            sp_paren(m, st)
        } else {
            (None, st)
        },
        _ => (None, st),
    }
}

/// Precedence climbing: extend `lhs` with every following operator whose
/// precedence is at least `min_prec`, grouping tighter operators to the
/// right and equal ones to the left.
pub open spec fn sp_binary_rhs(m: Map<char, u32>, min_prec: int, lhs: ExprV, st: LexSt) -> (
    Option<ExprV>,
    LexSt,
)
    decreases msr(st), 3int,
    via sp_binary_rhs_decreases
{
    let prec = prec_of(m, st.cur);
    if min_prec > prec {
        (Some(lhs), st)
    } else {
        let op = st.cur->Some_0->Misc_0;
        let st1 = advance(st);
        let (r, st2) = sp_primary(m, st1);
        match r {
            None => (None, st2),
            Some(rhs0) => {
                let next_prec = prec_of(m, st2.cur);
                if next_prec > prec {
                    if msr(st2) < msr(st) {
                        let (r2, st3) = sp_binary_rhs(m, prec + 1, rhs0, st2);
                        match r2 {
                            None => (None, st3),
                            Some(rhs) => {
                                let folded = ExprV::Binary(op, Box::new(lhs), Box::new(rhs));
                                if msr(st3) < msr(st) {
                                    sp_binary_rhs(m, min_prec, folded, st3)
                                } else {
                                    (None, st3)
                                }
                            },
                        }
                    } else {
                        (None, st2)
                    }
                } else {
                    let folded = ExprV::Binary(op, Box::new(lhs), Box::new(rhs0));
                    if msr(st2) < msr(st) {
                        sp_binary_rhs(m, min_prec, folded, st2)
                    } else {
                        (None, st2)
                    }
                }
            },
        }
    }
}

/// Left-associativity of equal-precedence chains: when the operator after
/// the freshly parsed right operand does not bind tighter, that operand is
/// folded into the left operand at once, and climbing continues with the
/// combined expression as the new left side. `"1+2+3+4"` therefore parses
/// as `(((1+2)+3)+4)`.
pub proof fn lemma_left_associativity(m: Map<char, u32>, min_prec: int, lhs: ExprV, st: LexSt)
    requires
        min_prec <= prec_of(m, st.cur),
        ({
            let (r, st2) = sp_primary(m, advance(st));
            &&& r is Some
            &&& prec_of(m, st2.cur) <= prec_of(m, st.cur)
            &&& msr(st2) < msr(st)
        }),
    ensures
        ({
            let op = st.cur->Some_0->Misc_0;
            let (r, st2) = sp_primary(m, advance(st));
            sp_binary_rhs(m, min_prec, lhs, st) == sp_binary_rhs(
                m,
                min_prec,
                ExprV::Binary(op, Box::new(lhs), Box::new(r->0)),
                st2,
            )
        }),
{
}

/// Right grouping of tighter operators: when the operator after the
/// freshly parsed right operand binds tighter than the one just consumed,
/// the right operand first absorbs everything that binds at least that
/// tightly, and only the absorbed whole is folded into the left operand.
/// `"3 + 2 - 4 * 7 < 3"` therefore parses as `((3 + (2 - (4 * 7))) < 3)`.
pub proof fn lemma_tighter_binds_right(m: Map<char, u32>, min_prec: int, lhs: ExprV, st: LexSt)
    requires
        min_prec <= prec_of(m, st.cur),
        ({
            let (r, st2) = sp_primary(m, advance(st));
            &&& r is Some
            &&& prec_of(m, st2.cur) > prec_of(m, st.cur)
            &&& msr(st2) < msr(st)
        }),
    ensures
        ({
            let op = st.cur->Some_0->Misc_0;
            let prec = prec_of(m, st.cur);
            let (r, st2) = sp_primary(m, advance(st));
            let (r2, st3) = sp_binary_rhs(m, prec + 1, r->0, st2);
            sp_binary_rhs(m, min_prec, lhs, st) == (match r2 {
                None => (None::<ExprV>, st3),
                Some(rhs) => {
                    let folded = ExprV::Binary(op, Box::new(lhs), Box::new(rhs));
                    if msr(st3) < msr(st) {
                        sp_binary_rhs(m, min_prec, folded, st3)
                    } else {
                        (None, st3)
                    }
                },
            })
        }),
{
}

/// An equal-precedence chain folds left-associatively: for a stream
/// shaped `lhs op1 b op2 c` whose two registered operators have the same
/// precedence and where no operator follows, climbing from minimum
/// precedence zero yields `(lhs op1 b) op2 c`. `"1+2+3"` is
/// `((1+2)+3)`, and each further equal operator folds the same way.
pub proof fn lemma_equal_precedence_chain(
    m: Map<char, u32>,
    lhs: ExprV,
    st: LexSt,
    b: ExprV,
    st2: LexSt,
    c: ExprV,
    st4: LexSt,
)
    requires
        0 <= prec_of(m, st.cur),
        sp_primary(m, advance(st)) == (Some(b), st2),
        msr(st2) < msr(st),
        prec_of(m, st2.cur) == prec_of(m, st.cur),
        sp_primary(m, advance(st2)) == (Some(c), st4),
        msr(st4) < msr(st2),
        prec_of(m, st4.cur) < 0,
    ensures
        ({
            let op1 = st.cur->Some_0->Misc_0;
            let op2 = st2.cur->Some_0->Misc_0;
            sp_binary_rhs(m, 0, lhs, st) == (
                Some(
                    ExprV::Binary(
                        op2,
                        Box::new(ExprV::Binary(op1, Box::new(lhs), Box::new(b))),
                        Box::new(c),
                    ),
                ),
                st4,
            )
        }),
{
    let op1 = st.cur->Some_0->Misc_0;
    let op2 = st2.cur->Some_0->Misc_0;
    let folded1 = ExprV::Binary(op1, Box::new(lhs), Box::new(b));
    let folded2 = ExprV::Binary(op2, Box::new(folded1), Box::new(c));
    assert(sp_binary_rhs(m, 0, lhs, st) == sp_binary_rhs(m, 0, folded1, st2));
    assert(sp_binary_rhs(m, 0, folded1, st2) == sp_binary_rhs(m, 0, folded2, st4));
    assert(sp_binary_rhs(m, 0, folded2, st4) == (Some(folded2), st4));
}

/// A tighter operator groups to the right: for a stream shaped
/// `lhs op1 b op2 c` where `op2` binds strictly tighter than `op1` and no
/// operator follows, climbing from minimum precedence zero yields
/// `lhs op1 (b op2 c)`. With the reference table, `"2 - 4 * 7"` is
/// `2 - (4 * 7)`.
pub proof fn lemma_tighter_chain_groups_right(
    m: Map<char, u32>,
    lhs: ExprV,
    st: LexSt,
    b: ExprV,
    st2: LexSt,
    c: ExprV,
    st4: LexSt,
)
    requires
        0 <= prec_of(m, st.cur),
        sp_primary(m, advance(st)) == (Some(b), st2),
        msr(st2) < msr(st),
        prec_of(m, st2.cur) > prec_of(m, st.cur),
        sp_primary(m, advance(st2)) == (Some(c), st4),
        msr(st4) < msr(st2),
        prec_of(m, st4.cur) < 0,
    ensures
        ({
            let op1 = st.cur->Some_0->Misc_0;
            let op2 = st2.cur->Some_0->Misc_0;
            sp_binary_rhs(m, 0, lhs, st) == (
                Some(
                    ExprV::Binary(
                        op1,
                        Box::new(lhs),
                        Box::new(ExprV::Binary(op2, Box::new(b), Box::new(c))),
                    ),
                ),
                st4,
            )
        }),
{
    let op1 = st.cur->Some_0->Misc_0;
    let op2 = st2.cur->Some_0->Misc_0;
    let p1 = prec_of(m, st.cur);
    let inner = ExprV::Binary(op2, Box::new(b), Box::new(c));
    assert(sp_binary_rhs(m, p1 + 1, inner, st4) == (Some(inner), st4));
    assert(sp_binary_rhs(m, p1 + 1, b, st2) == sp_binary_rhs(m, p1 + 1, inner, st4));
    let folded = ExprV::Binary(op1, Box::new(lhs), Box::new(inner));
    assert(sp_binary_rhs(m, 0, folded, st4) == (Some(folded), st4));
    assert(sp_binary_rhs(m, 0, lhs, st) == (Some(folded), st4));
}

/// A full expression: one primary, extended by precedence climbing from
/// minimum precedence zero.
pub open spec fn sp_expression(m: Map<char, u32>, st: LexSt) -> (Option<ExprV>, LexSt)
    decreases msr(st), 5int,
{
    let (p, st1) = sp_primary(m, st);
    match p {
        None => (None, st1),
        Some(e) => if msr(st1) < msr(st) {
            sp_binary_rhs(m, 0, e, st1)
        } else {
            (None, st1)
        },
    }
}

/// The parameter names of a prototype, up to and including the closing
/// parenthesis; a single trailing comma is tolerated.
pub open spec fn sp_proto_args(name: Seq<char>, acc: Seq<Seq<char>>, st: LexSt) -> (
    Option<ExprV>,
    LexSt,
)
    decreases msr(st), 0int,
    via sp_proto_args_decreases
{
    match st.cur {
        Some(TokenV::Identifier(a)) => {
            let st1 = advance(st);
            match st1.cur {
                Some(TokenV::Misc(c)) => if c == ')' {
                    (Some(ExprV::Prototype(name, acc.push(a))), advance(st1))
                } else if c == ',' && msr(advance(st1)) < msr(st) {
                    sp_proto_args(name, acc.push(a), advance(st1))
                } else {
                    (None, st1)
                },
                _ => (None, st1),
            }
        },
        Some(TokenV::Misc(c)) => if c == ')' {
            (Some(ExprV::Prototype(name, acc)), advance(st))
        } else {
            (None, st)
        },
        _ => (None, st),
    }
}

/// A function prototype: a name, `(`, parameter names, `)`.
pub open spec fn sp_prototype(st: LexSt) -> (Option<ExprV>, LexSt)
    decreases msr(st), 1int,
{
    match st.cur {
        Some(TokenV::Identifier(n)) => {
            let st1 = advance(st);
            match st1.cur {
                Some(TokenV::Misc(c)) => if c == '(' && msr(advance(st1)) < msr(st) {
                    sp_proto_args(n, Seq::empty(), advance(st1))
                } else {
                    (None, st1)
                },
                _ => (None, st1),
            }
        },
        _ => (None, st),
    }
}

/// A function definition: the `def` keyword, a prototype, and a body
/// expression.
pub open spec fn sp_function_definition(m: Map<char, u32>, st: LexSt) -> (Option<ExprV>, LexSt)
    decreases msr(st), 7int,
    via sp_function_definition_decreases
{
    let st1 = advance(st);
    if msr(st1) < msr(st) {
        let (p, st2) = sp_prototype(st1);
        match p {
            None => (None, st2),
            Some(proto) => {
                if msr(st2) < msr(st) {
                    let (b, st3) = sp_expression(m, st2);
                    match b {
                        None => (None, st3),
                        Some(body) => (
                            (Some(ExprV::Function(Box::new(proto), Box::new(body)))),
                            st3,
                        ),
                    }
                } else {
                    (None, st2)
                }
            },
        }
    } else {
        (None, st)
    }
}

/// An extern declaration: the `extern` keyword and a prototype.
pub open spec fn sp_extern(st: LexSt) -> (Option<ExprV>, LexSt)
    decreases msr(st), 7int,
    via sp_extern_decreases
{
    let st1 = advance(st);
    if msr(st1) < msr(st) {
        sp_prototype(st1)
    } else {
        (None, st)
    }
}

/// A bare top-level expression, wrapped as an anonymous zero-parameter
/// function.
pub open spec fn sp_top_level(m: Map<char, u32>, st: LexSt) -> (Option<ExprV>, LexSt)
    decreases msr(st), 7int,
{
    let (e, st1) = sp_expression(m, st);
    match e {
        None => (None, st1),
        Some(body) => (
            Some(
                ExprV::Function(
                    Box::new(ExprV::Prototype(anon_name(), Seq::empty())),
                    Box::new(body),
                ),
            ),
            st1,
        ),
    }
}

#[via_fn]
proof fn sp_paren_decreases(m: Map<char, u32>, st: LexSt) {
    lemma_advance_msr(st);
    lemma_advance_msr(advance(st));
}

#[via_fn]
proof fn sp_binary_rhs_decreases(m: Map<char, u32>, min_prec: int, lhs: ExprV, st: LexSt) {
    if min_prec <= prec_of(m, st.cur) {
        lemma_advance_msr(st);
    }
}

#[via_fn]
proof fn sp_proto_args_decreases(name: Seq<char>, acc: Seq<Seq<char>>, st: LexSt) {
    lemma_advance_msr(st);
}

#[via_fn]
proof fn sp_function_definition_decreases(m: Map<char, u32>, st: LexSt) {
    lemma_advance_msr(st);
}

#[via_fn]
proof fn sp_extern_decreases(st: LexSt) {
    lemma_advance_msr(st);
}


// ---------------------------------------------------------------------------
// The parser
// ---------------------------------------------------------------------------

/// The view of an optional expression.
pub open spec fn opt_expr_view(o: Option<Expr>) -> Option<ExprV> {
    match o {
        Some(e) => Some(e@),
        None => None,
    }
}

/// The recursive-descent parser: an operator table and a log of parse
/// diagnostics.
pub struct Parser {
    pub environment: Environment,
    pub log: Vec<String>,
}

impl View for Parser {
    type V = Map<char, u32>;

    open spec fn view(&self) -> Map<char, u32> {
        self.environment@
    }
}

impl Parser {
    /// Records a diagnostic and yields no expression.
    fn log_error(&mut self, message: &str) -> (r: Option<Expr>)
        ensures
            final(self)@ == old(self)@,
            r is None,
    {
        self.log.push(message.to_owned());
        None
    }

    /// A parser with the reference operator table: `<`, `+`, `-`, `*` in
    /// rising precedence.
    pub fn new() -> (r: Parser)
        ensures
            r@ == Map::<char, u32>::empty().insert('<', 10u32).insert('+', 20u32).insert(
                '-',
                30u32,
            ).insert('*', 40u32),
    {
        let mut environment = Environment::new();
        environment.add_operator_precedence(('<', 10));
        environment.add_operator_precedence(('+', 20));
        environment.add_operator_precedence(('-', 30));
        environment.add_operator_precedence(('*', 40));
        Parser { environment, log: Vec::new() }
    }

    /// The number literal under the current token, consumed.
    pub fn parse_number_expr(&mut self, lexer: &mut Lexer) -> (r: Expr)
        requires
            old(lexer).wf(),
            opt_tok_view(old(lexer).buffer) matches Some(TokenV::Number(_)),
        ensures
            final(lexer).wf(),
            final(lexer).input == old(lexer).input,
            *final(self) == *old(self),
            (r@, st_of(*final(lexer))) == sp_number(st_of(*old(lexer))),
            msr(st_of(*final(lexer))) < msr(st_of(*old(lexer))),
    {
        let ghost st0 = st_of(*old(lexer));
        let value = match lexer.current_token() {
            Some(Token::Number(v)) => v.clone(),
            _ => unreached(),
        };
        let result = Expr { kind: ExprKind::Number(value) };
        lexer.get_next_token();
        proof {
            lemma_advance_msr(st0);
            assert(st_of(*lexer) == advance(st0));
        }
        result
    }

    /// A parenthesised expression: consumes `(`, an inner expression, `)`.
    pub fn parse_paren_expr(&mut self, lexer: &mut Lexer) -> (r: Option<Expr>)
        requires
            old(lexer).wf(),
            opt_tok_view(old(lexer).buffer) == Some(TokenV::Misc('(')),
        ensures
            final(lexer).wf(),
            final(lexer).input == old(lexer).input,
            final(self)@ == old(self)@,
            (opt_expr_view(r), st_of(*final(lexer))) == sp_paren(old(self)@, st_of(*old(lexer))),
            msr(st_of(*final(lexer))) <= msr(st_of(*old(lexer))),
            r is Some ==> msr(st_of(*final(lexer))) < msr(st_of(*old(lexer))),
        decreases msr(st_of(*old(lexer))), 1int,
    {
        let ghost st0 = st_of(*old(lexer));
        lexer.get_next_token();
        proof {
            lemma_advance_msr(st0);
            assert(st_of(*lexer) == advance(st0));
        }
        let result = match self.parse_expression(lexer) {
            Some(e) => e,
            None => {
                return None;
            },
        };
        match lexer.current_token() {
            Some(Token::Misc(c)) => {
                if *c == ')' {
                    let ghost st2 = st_of(*lexer);
                    lexer.get_next_token();
                    proof {
                        lemma_advance_msr(st2);
                        assert(st_of(*lexer) == advance(st2));
                    }
                    Some(result)
                } else {
                    self.log_error("Expected ')' after a parenthesised expression")
                }
            },
            Some(_) => self.log_error("Expected ')' after a parenthesised expression"),
            None => self.log_error("Expected ')' but the scan failed"),
        }
    }

    /// After a consumed identifier: a variable, or a call whose argument
    /// list follows.
    pub fn parse_identifier_prefixed_expr(&mut self, identifier: String, lexer: &mut Lexer) -> (r:
        Option<Expr>)
        requires
            old(lexer).wf(),
            opt_tok_view(old(lexer).buffer) matches Some(TokenV::Identifier(_)),
        ensures
            final(lexer).wf(),
            final(lexer).input == old(lexer).input,
            final(self)@ == old(self)@,
            (opt_expr_view(r), st_of(*final(lexer))) == sp_ident_prefixed(
                old(self)@,
                identifier@,
                st_of(*old(lexer)),
            ),
            msr(st_of(*final(lexer))) <= msr(st_of(*old(lexer))),
            r is Some ==> msr(st_of(*final(lexer))) < msr(st_of(*old(lexer))),
        decreases msr(st_of(*old(lexer))), 1int,
    {
        let ghost m = old(self)@;
        let ghost st0 = st_of(*old(lexer));
        lexer.get_next_token();
        proof {
            lemma_advance_msr(st0);
            assert(st_of(*lexer) == advance(st0));
        }
        let ghost st1 = advance(st0);
        let is_call = match lexer.current_token() {
            Some(Token::Misc(c)) => *c == '(',
            _ => false,
        };
        if !is_call {
            return Some(Expr { kind: ExprKind::Variable { name: identifier } });
        }
        lexer.get_next_token();
        proof {
            lemma_advance_msr(st1);
            assert(st_of(*lexer) == advance(st1));
        }
        let ghost st2 = advance(st1);
        let mut call_args = Vec::<Expr>::new();
        loop
            invariant
                lexer.wf(),
                lexer.input == old(lexer).input,
                self@ == m,
                m == old(self)@,
                st0 == st_of(*old(lexer)),
                msr(st_of(*lexer)) <= msr(st2),
                msr(st2) < msr(st0),
                sp_ident_prefixed(m, identifier@, st0) == sp_call_args(
                    m,
                    identifier@,
                    crate::ast::views_of(call_args@),
                    st_of(*lexer),
                ),
            decreases msr(st_of(*lexer)),
        {
            let ghost sth = st_of(*lexer);
            let ghost accv = crate::ast::views_of(call_args@);
            let at_close = match lexer.current_token() {
                Some(Token::Misc(c)) => *c == ')',
                _ => false,
            };
            if at_close {
                lexer.get_next_token();
                proof {
                    lemma_advance_msr(sth);
                    assert(st_of(*lexer) == advance(sth));
                }
                let e = Expr { kind: ExprKind::Call { callee: identifier, args: call_args } };
                return Some(e);
            }
            let expr = match self.parse_expression(lexer) {
                Some(e) => e,
                None => {
                    return None;
                },
            };
            let ghost stx = st_of(*lexer);
            proof {
                crate::ast::lemma_views_of_push(call_args@, expr);
            }
            call_args.push(expr);
            match lexer.current_token() {
                Some(Token::Misc(c)) => {
                    if *c == ')' {
                        lexer.get_next_token();
                        proof {
                            lemma_advance_msr(stx);
                            assert(st_of(*lexer) == advance(stx));
                        }
                        let e = Expr {
                            kind: ExprKind::Call { callee: identifier, args: call_args },
                        };
                        return Some(e);
                    } else if *c == ',' {
                        lexer.get_next_token();
                        proof {
                            lemma_advance_msr(stx);
                            assert(st_of(*lexer) == advance(stx));
                        }
                    } else {
                        return self.log_error("Expected ')' or ','");
                    }
                },
                _ => {
                    return self.log_error("Expected ')' or ','");
                },
            }
        }
    }

    /// A primary expression: a number, an identifier-led expression, or a
    /// parenthesised expression; anything else is a parse failure.
    pub fn parse_primary_expr(&mut self, lexer: &mut Lexer) -> (r: Option<Expr>)
        requires
            old(lexer).wf(),
        ensures
            final(lexer).wf(),
            final(lexer).input == old(lexer).input,
            final(self)@ == old(self)@,
            (opt_expr_view(r), st_of(*final(lexer))) == sp_primary(old(self)@, st_of(*old(lexer))),
            msr(st_of(*final(lexer))) <= msr(st_of(*old(lexer))),
            r is Some ==> msr(st_of(*final(lexer))) < msr(st_of(*old(lexer))),
        decreases msr(st_of(*old(lexer))), 2int,
    {
        let kind: u8 = match lexer.current_token() {
            Some(Token::Identifier(_)) => 0,
            Some(Token::Number(_)) => 1,
            Some(Token::Misc(c)) => if *c == '(' {
                2
            } else {
                3
            },
            _ => 3,
        };
        if kind == 0 {
            let ident = match lexer.current_token() {
                Some(Token::Identifier(i)) => i.clone(),
                _ => unreached(),
            };
            self.parse_identifier_prefixed_expr(ident, lexer)
        } else if kind == 1 {
            Some(self.parse_number_expr(lexer))
        } else if kind == 2 {
            self.parse_paren_expr(lexer)
        } else {
            self.log_error("unknown token when expecting an expression")
        }
    }
}


impl Parser {
    /// One full expression: a primary extended by precedence climbing.
    pub fn parse_expression(&mut self, lexer: &mut Lexer) -> (r: Option<Expr>)
        requires
            old(lexer).wf(),
        ensures
            final(lexer).wf(),
            final(lexer).input == old(lexer).input,
            final(self)@ == old(self)@,
            (opt_expr_view(r), st_of(*final(lexer))) == sp_expression(
                old(self)@,
                st_of(*old(lexer)),
            ),
            msr(st_of(*final(lexer))) <= msr(st_of(*old(lexer))),
            r is Some ==> msr(st_of(*final(lexer))) < msr(st_of(*old(lexer))),
        decreases msr(st_of(*old(lexer))), 5int,
    {
        let primary = match self.parse_primary_expr(lexer) {
            Some(e) => e,
            None => {
                return None;
            },
        };
        self.parse_binary_op_rhs(0, primary, lexer)
    }

    /// Precedence climbing: extends `lhs` with every following operator of
    /// precedence at least `lowest_edible_op_precedence`.
    pub fn parse_binary_op_rhs(
        &mut self,
        lowest_edible_op_precedence: i64,
        lhs: Expr,
        lexer: &mut Lexer,
    ) -> (r: Option<Expr>)
        requires
            old(lexer).wf(),
            lowest_edible_op_precedence >= 0,
        ensures
            final(lexer).wf(),
            final(lexer).input == old(lexer).input,
            final(self)@ == old(self)@,
            (opt_expr_view(r), st_of(*final(lexer))) == sp_binary_rhs(
                old(self)@,
                lowest_edible_op_precedence as int,
                lhs@,
                st_of(*old(lexer)),
            ),
            msr(st_of(*final(lexer))) <= msr(st_of(*old(lexer))),
        decreases msr(st_of(*old(lexer))), 3int,
    {
        let ghost m = old(self)@;
        let ghost st0 = st_of(*old(lexer));
        let (precedence, op): (i64, Option<char>) = match lexer.current_token() {
            Some(Token::Misc(c)) => (
                match self.environment.get_operator_precedence(*c) {
                    Some(p) => p as i64,
                    None => -1,
                },
                Some(*c),
            ),
            _ => (-1, None),
        };
        proof {
            assert(precedence as int == prec_of(m, st0.cur));
        }
        if lowest_edible_op_precedence > precedence {
            return Some(lhs);
        }
        let op = match op {
            Some(c) => c,
            None => unreached(),
        };
        lexer.get_next_token();
        proof {
            lemma_advance_msr(st0);
            assert(st_of(*lexer) == advance(st0));
        }
        let rhs = match self.parse_primary_expr(lexer) {
            Some(e) => e,
            None => {
                return None;
            },
        };
        let next_precedence: i64 = match lexer.current_token() {
            Some(Token::Misc(c)) => match self.environment.get_operator_precedence(*c) {
                Some(p) => p as i64,
                None => -1,
            },
            _ => -1,
        };
        proof {
            assert(next_precedence as int == prec_of(m, st_of(*lexer).cur));
        }
        if next_precedence > precedence {
            let rhs2 = match self.parse_binary_op_rhs(precedence + 1, rhs, lexer) {
                Some(e) => e,
                None => {
                    return None;
                },
            };
            let folded = Expr {
                kind: ExprKind::Binary { operator: op, lhs: Box::new(lhs), rhs: Box::new(rhs2) },
            };
            self.parse_binary_op_rhs(lowest_edible_op_precedence, folded, lexer)
        } else {
            let folded = Expr {
                kind: ExprKind::Binary { operator: op, lhs: Box::new(lhs), rhs: Box::new(rhs) },
            };
            self.parse_binary_op_rhs(lowest_edible_op_precedence, folded, lexer)
        }
    }
}


impl Parser {
    /// A function prototype: a name, `(`, parameter names (a trailing comma
    /// is tolerated), `)`.
    pub fn parse_function_prototype(&mut self, lexer: &mut Lexer) -> (r: Option<Expr>)
        requires
            old(lexer).wf(),
        ensures
            final(lexer).wf(),
            final(lexer).input == old(lexer).input,
            final(self)@ == old(self)@,
            (opt_expr_view(r), st_of(*final(lexer))) == sp_prototype(st_of(*old(lexer))),
            msr(st_of(*final(lexer))) <= msr(st_of(*old(lexer))),
            r is Some ==> msr(st_of(*final(lexer))) < msr(st_of(*old(lexer))),
    {
        let ghost st0 = st_of(*old(lexer));
        let func_name = match lexer.current_token() {
            Some(Token::Identifier(i)) => i.clone(),
            _ => {
                return self.log_error("Expected function name in prototype");
            },
        };
        lexer.get_next_token();
        proof {
            lemma_advance_msr(st0);
            assert(st_of(*lexer) == advance(st0));
        }
        let ghost st1 = advance(st0);
        let at_open = match lexer.current_token() {
            Some(Token::Misc(c)) => *c == '(',
            _ => false,
        };
        if !at_open {
            return self.log_error("Expected '(' in prototype");
        }
        lexer.get_next_token();
        proof {
            lemma_advance_msr(st1);
            assert(st_of(*lexer) == advance(st1));
        }
        let ghost st2 = advance(st1);
        let mut arg_names: Vec<String> = Vec::new();
        proof {
            assert(Seq::<String>::empty().map_values(|a: String| a@) =~= Seq::<Seq<char>>::empty());
            assert(msr(st2) <= st1.rest.len());
            assert(msr(st2) < msr(st0));
        }
        loop
            invariant
                lexer.wf(),
                lexer.input == old(lexer).input,
                self@ == old(self)@,
                st0 == st_of(*old(lexer)),
                msr(st_of(*lexer)) <= msr(st2),
                msr(st2) < msr(st0),
                sp_prototype(st0) == sp_proto_args(
                    func_name@,
                    arg_names@.map_values(|a: String| a@),
                    st_of(*lexer),
                ),
            decreases msr(st_of(*lexer)),
        {
            let ghost sth = st_of(*lexer);
            let ghost accv = arg_names@.map_values(|a: String| a@);
            let ident = match lexer.current_token() {
                Some(Token::Identifier(ident)) => Some(ident.clone()),
                _ => None,
            };
            match ident {
                Some(a) => {
                    lexer.get_next_token();
                    proof {
                        lemma_advance_msr(sth);
                        assert(st_of(*lexer) == advance(sth));
                        assert(arg_names@.push(a).map_values(|x: String| x@) =~= accv.push(a@));
                    }
                    arg_names.push(a);
                    let ghost stx = st_of(*lexer);
                    match lexer.current_token() {
                        Some(Token::Misc(c)) => {
                            if *c == ')' {
                                lexer.get_next_token();
                                proof {
                                    lemma_advance_msr(stx);
                                    assert(st_of(*lexer) == advance(stx));
                                }
                                let e = Expr {
                                    kind: ExprKind::Prototype {
                                        args: arg_names,
                                        name: func_name,
                                    },
                                };
                                return Some(e);
                            } else if *c == ',' {
                                lexer.get_next_token();
                                proof {
                                    lemma_advance_msr(stx);
                                    assert(st_of(*lexer) == advance(stx));
                                }
                            } else {
                                return self.log_error("Expected ',' or ')' in prototype");
                            }
                        },
                        _ => {
                            return self.log_error("Expected ',' or ')' in prototype");
                        },
                    }
                },
                None => {
                    let at_close = match lexer.current_token() {
                        Some(Token::Misc(c)) => *c == ')',
                        _ => false,
                    };
                    if at_close {
                        let ghost stx = st_of(*lexer);
                        lexer.get_next_token();
                        proof {
                            lemma_advance_msr(stx);
                            assert(st_of(*lexer) == advance(stx));
                        }
                        let e = Expr {
                            kind: ExprKind::Prototype { args: arg_names, name: func_name },
                        };
                        return Some(e);
                    }
                    return self.log_error("Expected ')' in prototype");
                },
            }
        }
    }

    /// A function definition: the `def` keyword, a prototype, one body
    /// expression.
    pub fn parse_function_definition(&mut self, lexer: &mut Lexer) -> (r: Option<Expr>)
        requires
            old(lexer).wf(),
            opt_tok_view(old(lexer).buffer) == Some(TokenV::Def),
        ensures
            final(lexer).wf(),
            final(lexer).input == old(lexer).input,
            final(self)@ == old(self)@,
            (opt_expr_view(r), st_of(*final(lexer))) == sp_function_definition(
                old(self)@,
                st_of(*old(lexer)),
            ),
    {
        let ghost st0 = st_of(*old(lexer));
        lexer.get_next_token();
        proof {
            lemma_advance_msr(st0);
            assert(st_of(*lexer) == advance(st0));
        }
        let prototype = match self.parse_function_prototype(lexer) {
            Some(p) => p,
            None => {
                return None;
            },
        };
        let expression = match self.parse_expression(lexer) {
            Some(e) => e,
            None => {
                return None;
            },
        };
        Some(
            Expr {
                kind: ExprKind::Function {
                    prototype: Box::new(prototype),
                    body: Box::new(expression),
                },
            },
        )
    }

    /// An extern declaration: the `extern` keyword and a prototype.
    pub fn parse_extern(&mut self, lexer: &mut Lexer) -> (r: Option<Expr>)
        requires
            old(lexer).wf(),
            opt_tok_view(old(lexer).buffer) == Some(TokenV::Extern),
        ensures
            final(lexer).wf(),
            final(lexer).input == old(lexer).input,
            final(self)@ == old(self)@,
            (opt_expr_view(r), st_of(*final(lexer))) == sp_extern(st_of(*old(lexer))),
    {
        let ghost st0 = st_of(*old(lexer));
        lexer.get_next_token();
        proof {
            lemma_advance_msr(st0);
            assert(st_of(*lexer) == advance(st0));
        }
        self.parse_function_prototype(lexer)
    }

    /// A bare expression, wrapped as an anonymous zero-parameter function
    /// so the driver can evaluate it immediately.
    pub fn parse_top_level_expression(&mut self, lexer: &mut Lexer) -> (r: Option<Expr>)
        requires
            old(lexer).wf(),
        ensures
            final(lexer).wf(),
            final(lexer).input == old(lexer).input,
            final(self)@ == old(self)@,
            (opt_expr_view(r), st_of(*final(lexer))) == sp_top_level(
                old(self)@,
                st_of(*old(lexer)),
            ),
    {
        let expression = match self.parse_expression(lexer) {
            Some(e) => e,
            None => {
                return None;
            },
        };
        let anon_args: Vec<String> = Vec::new();
        let prototype = ExprKind::Prototype { name: "__anon".to_owned(), args: anon_args };
        let result = Expr {
            kind: ExprKind::Function { prototype: Box::new(Expr { kind: prototype }), body: Box::new(expression) },
        };
        proof {
            reveal_strlit("__anon");
            assert("__anon"@ =~= anon_name());
            match result.kind {
                ExprKind::Function { ref prototype, ref body } => {
                    match (**prototype).kind {
                        ExprKind::Prototype { ref name, ref args } => {
                            assert(name@ == anon_name());
                            assert(args@.map_values(|a: String| a@) =~= Seq::<Seq<char>>::empty());
                            assert((**prototype)@ == ExprV::Prototype(anon_name(), Seq::empty()));
                        },
                        _ => { assert(false); },
                    }
                    assert((**body)@ == expression@);
                },
                _ => { assert(false); },
            }
            assert(result@ == ExprV::Function(
                Box::new(ExprV::Prototype(anon_name(), Seq::empty())),
                Box::new(expression@),
            ));
        }
        Some(result)
    }
}

} // verus!
