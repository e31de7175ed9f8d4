use vstd::prelude::*;
use crate::ast::{
    expr_view, exprs_view, names_view, stmt_view, stmts_view, Block, Call,
    Boolean, Expr, ExprStmt, ExprV, Func, Ident, If, Infix, Int, Let, Prefix, Program, Return,
    Stmt, StmtV,
};
use crate::lexer::{digit, lex_next, lemma_lex_progress, Lexer};
use crate::lexer::{char_at, skip_spaces};
use crate::token::{kind_text, Token, Type};
use vstd::string::StringExecFns;

verus! {

/// A syntax error, recorded by the parser before it goes on.
#[derive(Debug)]
pub enum ParseError {
    /// The token after the current one was not of the kind the grammar requires.
    UnexpectedToken { expected: Type, got: Type },
    /// A token that cannot start an expression stands where one is required.
    NoPrefixRule { got: Type },
    /// An integer literal does not fit in a 64-bit signed integer.
    BadInteger { literal: String },
}

/// The human-readable form of a syntax error.
pub open spec fn message_text(e: ParseError) -> Seq<char> {
    match e {
        ParseError::UnexpectedToken { expected, got } => "expected next token to be "@ + kind_text(
            expected,
        ) + ", got "@ + kind_text(got) + " instead"@,
        ParseError::NoPrefixRule { got } => "no expression can start with "@ + kind_text(got),
        ParseError::BadInteger { literal } => "could not parse "@ + literal@ + " as an integer"@,
    }
}

impl ParseError {
    /// The human-readable form of this error (see `message_text`).
    pub fn message(&self) -> (r: String)
        ensures
            r@ == message_text(*self),
    {
        match self {
            ParseError::UnexpectedToken { expected, got } => {
                let mut r = String::from_str("expected next token to be ");
                r.append(expected.describe());
                r.append(", got ");
                r.append(got.describe());
                r.append(" instead");
                r
            },
            ParseError::NoPrefixRule { got } => {
                let mut r = String::from_str("no expression can start with ");
                r.append(got.describe());
                r
            },
            ParseError::BadInteger { literal } => {
                let mut r = String::from_str("could not parse ");
                r.append(literal.as_str());
                r.append(" as an integer");
                r
            },
        }
    }
}

/// The meaning of a syntax error: the same information, with an integer
/// literal's text as characters.
pub enum ParseErrorV {
    UnexpectedToken { expected: Type, got: Type },
    NoPrefixRule { got: Type },
    BadInteger { literal: Seq<char> },
}

pub open spec fn err_view(e: ParseError) -> ParseErrorV {
    match e {
        ParseError::UnexpectedToken { expected, got } => ParseErrorV::UnexpectedToken {
            expected,
            got,
        },
        ParseError::NoPrefixRule { got } => ParseErrorV::NoPrefixRule { got },
        ParseError::BadInteger { literal } => ParseErrorV::BadInteger { literal: literal@ },
    }
}

// Binding powers, lowest to highest.
pub const LOWEST: u8 = 0;
pub const EQUALS: u8 = 1;
pub const LESS_GREATER: u8 = 2;
pub const SUM: u8 = 3;
pub const PRODUCT: u8 = 4;
pub const PREFIX: u8 = 5;
pub const CALL: u8 = 6;

/// The binding power of a token that continues an expression.
pub open spec fn prec_of(t: Type) -> u8 {
    match t {
        Type::Equ | Type::Neq => EQUALS,
        Type::Lt | Type::Gt => LESS_GREATER,
        Type::Plus | Type::Minus => SUM,
        Type::Slash | Type::Asterisk => PRODUCT,
        Type::Lparen => CALL,
        _ => LOWEST,
    }
}

/// The kind of the token at `p`; `Eof` past the end.
pub open spec fn kind_at(ts: Seq<(Type, Seq<char>)>, p: int) -> Type {
    if 0 <= p < ts.len() {
        ts[p].0
    } else {
        Type::Eof
    }
}

/// The text of the token at `p`; empty past the end.
pub open spec fn text_at(ts: Seq<(Type, Seq<char>)>, p: int) -> Seq<char> {
    if 0 <= p < ts.len() {
        ts[p].1
    } else {
        Seq::empty()
    }
}

/// The position after `p`; the end of the tokens is never passed.
pub open spec fn adv(ts: Seq<(Type, Seq<char>)>, p: int) -> int {
    if p < ts.len() {
        p + 1
    } else {
        p
    }
}

/// Whether a parse that started at `p` stopped at `q` inside the tokens.
pub open spec fn within(ts: Seq<(Type, Seq<char>)>, p: int, q: int) -> bool {
    p <= q <= ts.len()
}

pub open spec fn unexpected(expected: Type, got: Type) -> Seq<ParseErrorV> {
    seq![ParseErrorV::UnexpectedToken { expected, got }]
}

/// The value of a string of decimal digits.
pub open spec fn digits_value(s: Seq<char>) -> int
    decreases s.len(),
{
    if s.len() == 0 {
        0
    } else {
        digits_value(s.subrange(0, s.len() - 1)) * 10 + (s[s.len() - 1] as int - '0' as int)
    }
}

/// The value of an integer literal, when it is one and fits in an `i64`.
pub open spec fn int_value(s: Seq<char>) -> Option<int> {
    if s.len() > 0 && (forall|i: int| 0 <= i < s.len() ==> digit(#[trigger] s[i]))
        && digits_value(s) <= i64::MAX {
        Some(digits_value(s))
    } else {
        None
    }
}

/// Statements from `p` up to the closing `}` of a block (when `in_block`)
/// or up to the end of input. A statement that fails to parse is left out;
/// parsing resumes at the token after the one where it stopped.
/// Yields the statements, the position where it stopped and the errors.
pub open spec fn items_spec(ts: Seq<(Type, Seq<char>)>, p: int, in_block: bool) -> (
    Seq<StmtV>,
    int,
    Seq<ParseErrorV>,
)
    decreases ts.len() - p, 5int,
    when 0 <= p <= ts.len()
{
    if kind_at(ts, p) == Type::Eof || (in_block && kind_at(ts, p) == Type::Rbrace) {
        (Seq::empty(), p, Seq::empty())
    } else {
        let (s, q, e1) = stmt_spec(ts, p);
        if !within(ts, p, q) {
            (Seq::empty(), q, e1)
        } else {
            let (rest, q2, e2) = items_spec(ts, adv(ts, q), in_block);
            match s {
                Some(st) => (seq![st] + rest, q2, e1 + e2),
                None => (rest, q2, e1 + e2),
            }
        }
    }
}

/// One statement starting at `p`; the position returned is its last token.
pub open spec fn stmt_spec(ts: Seq<(Type, Seq<char>)>, p: int) -> (Option<StmtV>, int, Seq<ParseErrorV>)
    decreases ts.len() - p, 4int,
    when 0 <= p <= ts.len()
{
    match kind_at(ts, p) {
        Type::Let => let_spec(ts, p),
        Type::Return => return_spec(ts, p),
        _ => expr_stmt_spec(ts, p),
    }
}

/// `let IDENT = EXPR [;]`
pub open spec fn let_spec(ts: Seq<(Type, Seq<char>)>, p: int) -> (Option<StmtV>, int, Seq<ParseErrorV>)
    decreases ts.len() - p, 3int,
    when 0 <= p <= ts.len()
{
    if kind_at(ts, p + 1) != Type::Ident {
        (None, p, unexpected(Type::Ident, kind_at(ts, p + 1)))
    } else if kind_at(ts, p + 2) != Type::Assign {
        (None, p + 1, unexpected(Type::Assign, kind_at(ts, p + 2)))
    } else {
        let (v, q, e) = expr_spec(ts, p + 3, LOWEST);
        match v {
            None => (None, q, e),
            Some(val) => {
                let st = StmtV::Let(text_at(ts, p + 1), val);
                if kind_at(ts, q + 1) == Type::Semicolon {
                    (Some(st), q + 1, e)
                } else {
                    (Some(st), q, e)
                }
            },
        }
    }
}

/// `return EXPR [;]`
pub open spec fn return_spec(ts: Seq<(Type, Seq<char>)>, p: int) -> (Option<StmtV>, int, Seq<ParseErrorV>)
    decreases ts.len() - p, 3int,
    when 0 <= p < ts.len()
{
    let (v, q, e) = expr_spec(ts, p + 1, LOWEST);
    match v {
        None => (None, q, e),
        Some(val) => if kind_at(ts, q + 1) == Type::Semicolon {
            (Some(StmtV::Return(val)), q + 1, e)
        } else {
            (Some(StmtV::Return(val)), q, e)
        },
    }
}

/// `EXPR [;]`
pub open spec fn expr_stmt_spec(ts: Seq<(Type, Seq<char>)>, p: int) -> (
    Option<StmtV>,
    int,
    Seq<ParseErrorV>,
)
    decreases ts.len() - p, 3int,
    when 0 <= p <= ts.len()
{
    let (v, q, e) = expr_spec(ts, p, LOWEST);
    match v {
        None => (None, q, e),
        Some(val) => if kind_at(ts, q + 1) == Type::Semicolon {
            (Some(StmtV::Expr(val)), q + 1, e)
        } else {
            (Some(StmtV::Expr(val)), q, e)
        },
    }
}

/// An expression starting at `p` whose operators all bind tighter than
/// `prec`; the position returned is its last token.
pub open spec fn expr_spec(ts: Seq<(Type, Seq<char>)>, p: int, prec: u8) -> (
    Option<ExprV>,
    int,
    Seq<ParseErrorV>,
)
    decreases ts.len() - p, 2int,
    when 0 <= p <= ts.len()
{
    let (l, q, e1) = prefix_spec(ts, p);
    match l {
        None => (None, q, e1),
        Some(lhs) => if !within(ts, p, q) {
            (None, q, e1)
        } else {
            let (r, q2, e2) = infix_spec(ts, q, prec, lhs);
            (r, q2, e1 + e2)
        },
    }
}

/// Extends `lhs`, which ends at `q`, with every following infix operator or
/// call that binds tighter than `prec`.
pub open spec fn infix_spec(ts: Seq<(Type, Seq<char>)>, q: int, prec: u8, lhs: ExprV) -> (
    Option<ExprV>,
    int,
    Seq<ParseErrorV>,
)
    decreases ts.len() - q, 1int,
    when 0 <= q <= ts.len()
{
    let pk = kind_at(ts, q + 1);
    if prec < prec_of(pk) {
        if pk == Type::Lparen {
            let (args, q2, e) = args_spec(ts, adv(ts, q + 1));
            match args {
                None => (None, q2, e),
                Some(a) => if !within(ts, q + 1, q2) {
                    (None, q2, e)
                } else {
                    let (r, q3, e3) = infix_spec(ts, q2, prec, ExprV::Call(Box::new(lhs), a));
                    (r, q3, e + e3)
                },
            }
        } else {
            let (rhs, q2, e) = expr_spec(ts, q + 2, prec_of(pk));
            match rhs {
                None => (None, q2, e),
                Some(r) => if !within(ts, q + 2, q2) {
                    (None, q2, e)
                } else {
                    let (res, q3, e3) = infix_spec(
                        ts,
                        q2,
                        prec,
                        ExprV::Infix(Box::new(lhs), text_at(ts, q + 1), Box::new(r)),
                    );
                    (res, q3, e + e3)
                },
            }
        }
    } else {
        (Some(lhs), q, Seq::empty())
    }
}

/// Call arguments from `p` up to the closing `)`, which the position
/// returned points at.
pub open spec fn args_spec(ts: Seq<(Type, Seq<char>)>, p: int) -> (
    Option<Seq<ExprV>>,
    int,
    Seq<ParseErrorV>,
)
    decreases ts.len() - p, 3int,
    when 0 <= p <= ts.len()
{
    if kind_at(ts, p) == Type::Rparen {
        (Some(Seq::empty()), p, Seq::empty())
    } else if kind_at(ts, p) == Type::Eof {
        (None, p, unexpected(Type::Rparen, Type::Eof))
    } else {
        let (a, q, e1) = expr_spec(ts, p, LOWEST);
        match a {
            None => (None, q, e1),
            Some(arg) => if !within(ts, p, q) {
                (None, q, e1)
            } else {
                let q1 = adv(ts, q);
                let q2 = if kind_at(ts, q1) == Type::Comma {
                    adv(ts, q1)
                } else {
                    q1
                };
                let (rest, q3, e2) = args_spec(ts, q2);
                match rest {
                    None => (None, q3, e1 + e2),
                    Some(r) => (Some(seq![arg] + r), q3, e1 + e2),
                }
            },
        }
    }
}

/// An expression introduced by the token at `p`.
pub open spec fn prefix_spec(ts: Seq<(Type, Seq<char>)>, p: int) -> (
    Option<ExprV>,
    int,
    Seq<ParseErrorV>,
)
    decreases ts.len() - p, 1int,
    when 0 <= p <= ts.len()
{
    match kind_at(ts, p) {
        Type::Ident => (Some(ExprV::Ident(text_at(ts, p))), p, Seq::empty()),
        Type::Int => match int_value(text_at(ts, p)) {
            Some(v) => (Some(ExprV::Int(v)), p, Seq::empty()),
            None => (None, p, seq![ParseErrorV::BadInteger { literal: text_at(ts, p) }]),
        },
        Type::True => (Some(ExprV::Boolean(true)), p, Seq::empty()),
        Type::False => (Some(ExprV::Boolean(false)), p, Seq::empty()),
        Type::Lparen => grouped_spec(ts, p),
        Type::If => if_spec(ts, p),
        Type::Function => func_spec(ts, p),
        Type::Minus | Type::Bang => {
            let (r, q, e) = expr_spec(ts, p + 1, PREFIX);
            match r {
                None => (None, q, e),
                Some(rhs) => (Some(ExprV::Prefix(text_at(ts, p), Box::new(rhs))), q, e),
            }
        },
        _ => (None, p, seq![ParseErrorV::NoPrefixRule { got: kind_at(ts, p) }]),
    }
}

/// `( EXPR )`
pub open spec fn grouped_spec(ts: Seq<(Type, Seq<char>)>, p: int) -> (
    Option<ExprV>,
    int,
    Seq<ParseErrorV>,
)
    decreases ts.len() - p, 0int,
    when 0 <= p < ts.len()
{
    let (r, q, e) = expr_spec(ts, p + 1, LOWEST);
    match r {
        None => (None, q, e),
        Some(inner) => if kind_at(ts, q + 1) == Type::Rparen {
            (Some(inner), q + 1, e)
        } else {
            (None, q, e + unexpected(Type::Rparen, kind_at(ts, q + 1)))
        },
    }
}

/// `if ( EXPR ) BLOCK [else BLOCK]`
pub open spec fn if_spec(ts: Seq<(Type, Seq<char>)>, p: int) -> (Option<ExprV>, int, Seq<ParseErrorV>)
    decreases ts.len() - p, 0int,
    when 0 <= p < ts.len()
{
    if kind_at(ts, p + 1) != Type::Lparen {
        (None, p, unexpected(Type::Lparen, kind_at(ts, p + 1)))
    } else {
        let (c, q, e1) = expr_spec(ts, p + 2, LOWEST);
        match c {
            None => (None, q, e1),
            Some(cond) => if !within(ts, p + 2, q) {
                (None, q, e1)
            } else if kind_at(ts, q + 1) != Type::Rparen {
                (None, q, e1 + unexpected(Type::Rparen, kind_at(ts, q + 1)))
            } else if kind_at(ts, q + 2) != Type::Lbrace {
                (None, q + 1, e1 + unexpected(Type::Lbrace, kind_at(ts, q + 2)))
            } else {
                let (cons, q3, e2) = block_spec(ts, q + 2);
                match cons {
                    None => (None, q3, e1 + e2),
                    Some(cs) => if !within(ts, q + 2, q3) {
                        (None, q3, e1 + e2)
                    } else if kind_at(ts, q3 + 1) != Type::Else {
                        (Some(ExprV::If(Box::new(cond), cs, None)), q3, e1 + e2)
                    } else if kind_at(ts, q3 + 2) != Type::Lbrace {
                        (
                            None,
                            q3 + 1,
                            e1 + e2 + unexpected(Type::Lbrace, kind_at(ts, q3 + 2)),
                        )
                    } else {
                        let (alt, q4, e3) = block_spec(ts, q3 + 2);
                        match alt {
                            None => (None, q4, e1 + e2 + e3),
                            Some(al) => (
                                Some(ExprV::If(Box::new(cond), cs, Some(al))),
                                q4,
                                e1 + e2 + e3,
                            ),
                        }
                    }
                }
            },
        }
    }
}

/// `{ STATEMENTS }` starting at the `{` at `p`; ends at the `}`.
pub open spec fn block_spec(ts: Seq<(Type, Seq<char>)>, p: int) -> (
    Option<Seq<StmtV>>,
    int,
    Seq<ParseErrorV>,
)
    decreases ts.len() - p, 0int,
    when 0 <= p < ts.len()
{
    let (ss, q, e) = items_spec(ts, p + 1, true);
    if kind_at(ts, q) == Type::Rbrace {
        (Some(ss), q, e)
    } else {
        (None, q, e + unexpected(Type::Rbrace, kind_at(ts, q)))
    }
}

/// `fn ( PARAMS ) BLOCK`
pub open spec fn func_spec(ts: Seq<(Type, Seq<char>)>, p: int) -> (Option<ExprV>, int, Seq<ParseErrorV>)
    decreases ts.len() - p, 0int,
    when 0 <= p < ts.len()
{
    if kind_at(ts, p + 1) != Type::Lparen {
        (None, p, unexpected(Type::Lparen, kind_at(ts, p + 1)))
    } else {
        let (ps, q, e1) = params_spec(ts, p + 2);
        match ps {
            None => (None, q, e1),
            Some(names) => if !within(ts, p + 2, q) {
                (None, q, e1)
            } else if kind_at(ts, q + 1) != Type::Lbrace {
                (None, q, e1 + unexpected(Type::Lbrace, kind_at(ts, q + 1)))
            } else {
                let (body, q2, e2) = block_spec(ts, q + 1);
                match body {
                    None => (None, q2, e1 + e2),
                    Some(b) => (Some(ExprV::Func(names, b)), q2, e1 + e2),
                }
            },
        }
    }
}

/// Parameter names from `p` up to the closing `)`, which the position
/// returned points at. A comma after a name is skipped.
pub open spec fn params_spec(ts: Seq<(Type, Seq<char>)>, p: int) -> (
    Option<Seq<Seq<char>>>,
    int,
    Seq<ParseErrorV>,
)
    decreases ts.len() - p,
    when 0 <= p <= ts.len()
{
    match kind_at(ts, p) {
        Type::Rparen => (Some(Seq::empty()), p, Seq::empty()),
        Type::Ident => {
            let q = if kind_at(ts, p + 1) == Type::Comma {
                p + 2
            } else {
                p + 1
            };
            if q > ts.len() {
                (None, q, Seq::empty())
            } else {
                let (rest, q2, e) = params_spec(ts, q);
                match rest {
                    None => (None, q2, e),
                    Some(r) => (Some(seq![text_at(ts, p)] + r), q2, e),
                }
            }
        },
        Type::Eof => (None, p, unexpected(Type::Rparen, Type::Eof)),
        _ => (None, p, unexpected(Type::Ident, kind_at(ts, p))),
    }
}


/// The kinds and texts of the tokens read from `p` on, up to and including
/// the first `Eof`.
pub open spec fn lex_all(s: Seq<char>, p: int) -> Seq<(Type, Seq<char>)>
    decreases s.len() - p,
    when 0 <= p <= s.len()
{
    let (t, lit, q) = lex_next(s, p);
    if t == Type::Eof {
        seq![(t, lit)]
    } else {
        proof {
            lemma_lex_progress(s, p);
        }
        seq![(t, lit)] + lex_all(s, q)
    }
}


/// An identifier node carries the identifier token it was read from.
pub open spec fn tokened_ident(i: Ident) -> bool {
    i.token.t == Type::Ident && i.val@ == i.token.literal@
}

/// Every node of an expression carries the token it was read from: the
/// operator's token for an operation (its text is the operator), the `(`
/// for a call, the keyword for `if` and `fn`, the literal for a literal.
pub open spec fn tokened_expr(e: Expr) -> bool
    decreases e,
{
    match e {
        Expr::Ident(i) => tokened_ident(i),
        Expr::Int(n) => n.token.t == Type::Int,
        Expr::Boolean(b) => (b.token.t == Type::True && b.val) || (b.token.t == Type::False
            && !b.val),
        Expr::Prefix(p) => (p.token.t == Type::Minus || p.token.t == Type::Bang) && p.op@
            == p.token.literal@ && tokened_expr(*p.rhs),
        Expr::Infix(i) => i.op@ == i.token.literal@ && tokened_expr(*i.lhs) && tokened_expr(
            *i.rhs,
        ),
        Expr::If(i) => i.token.t == Type::If && tokened_expr(*i.cond) && i.cons.token.t
            == Type::Lbrace && tokened_stmts(i.cons.stmts@) && match i.alt {
            Some(a) => a.token.t == Type::Lbrace && tokened_stmts(a.stmts@),
            None => true,
        },
        Expr::Func(f) => f.token.t == Type::Function && (forall|k: int|
            0 <= k < f.params@.len() ==> tokened_ident(#[trigger] f.params@[k])) && f.body.token.t
            == Type::Lbrace && tokened_stmts(f.body.stmts@),
        Expr::Call(c) => c.token.t == Type::Lparen && tokened_expr(*c.func) && tokened_exprs(
            c.args@,
        ),
    }
}

pub open spec fn tokened_exprs(es: Seq<Expr>) -> bool
    decreases es,
{
    es.len() == 0 || (tokened_exprs(es.subrange(0, es.len() - 1)) && tokened_expr(
        es[es.len() - 1],
    ))
}

/// Every node of a statement carries the token it was read from: `let`
/// with the name's identifier token, `return`, or the expression's first
/// token.
pub open spec fn tokened_stmt(s: Stmt) -> bool
    decreases s,
{
    match s {
        Stmt::Let(l) => l.token.t == Type::Let && l.token.literal@ == "let"@ && tokened_ident(
            l.name,
        ) && tokened_expr(l.val),
        Stmt::Return(r) => r.token.t == Type::Return && r.token.literal@ == "return"@
            && tokened_expr(r.val),
        Stmt::ExprStmt(es) => tokened_expr(es.expr),
        Stmt::Block(b) => b.token.t == Type::Lbrace && tokened_stmts(b.stmts@),
    }
}

pub open spec fn tokened_stmts(ss: Seq<Stmt>) -> bool
    decreases ss,
{
    ss.len() == 0 || (tokened_stmts(ss.subrange(0, ss.len() - 1)) && tokened_stmt(
        ss[ss.len() - 1],
    ))
}

pub open spec fn opt_expr(
o: Option<Expr>) -> Option<ExprV> {
    match o {
        Some(e) => Some(expr_view(e)),
        None => None,
    }
}

pub open spec fn opt_stmt(o: Option<Stmt>) -> Option<StmtV> {
    match o {
        Some(s) => Some(stmt_view(s)),
        None => None,
    }
}

proof fn lemma_digits_nonneg(s: Seq<char>)
    requires
        forall|i: int| 0 <= i < s.len() ==> digit(#[trigger] s[i]),
    ensures
        digits_value(s) >= 0,
    decreases s.len(),
{
    if s.len() > 0 {
        lemma_digits_nonneg(s.subrange(0, s.len() - 1));
    }
}

proof fn lemma_digits_prefix(s: Seq<char>, i: int)
    requires
        0 <= i <= s.len(),
        forall|k: int| 0 <= k < s.len() ==> digit(#[trigger] s[k]),
    ensures
        digits_value(s.subrange(0, i)) <= digits_value(s),
    decreases s.len() - i,
{
    if i < s.len() {
        lemma_digits_prefix(s, i + 1);
        let t = s.subrange(0, i + 1);
        assert(t.subrange(0, i) =~= s.subrange(0, i));
        lemma_digits_nonneg(s.subrange(0, i));
    } else {
        assert(s.subrange(0, i) =~= s);
    }
}

/// The value of an integer literal, or `None` when it is not a string of
/// digits or does not fit in an `i64`.
fn literal_value(lit: &String) -> (r: Option<i64>)
    ensures
        match r {
            Some(v) => int_value(lit@) == Some(v as int),
            None => int_value(lit@) is None,
        },
{
    let n = lit.as_str().unicode_len();
    if n == 0 {
        return None;
    }
    let mut acc: i64 = 0;
    let mut i: usize = 0;
    while i < n
        invariant
            n == lit@.len(),
            i <= n,
            acc == digits_value(lit@.subrange(0, i as int)),
            forall|k: int| 0 <= k < i ==> digit(#[trigger] lit@[k]),
        decreases n - i,
    {
        let c = lit.as_str().get_char(i);
        if !('0' <= c && c <= '9') {
            return None;
        }
        let d = (c as u32 - '0' as u32) as i64;
        let ghost before = lit@.subrange(0, i as int);
        proof {
            let t = lit@.subrange(0, i + 1);
            assert(t.subrange(0, i as int) =~= before);
        }
        match acc.checked_mul(10) {
            None => {
                proof {
                    lemma_digits_nonneg(before);
                    if forall|k: int| 0 <= k < n ==> digit(#[trigger] lit@[k]) {
                        lemma_digits_prefix(lit@, i + 1);
                        lemma_digits_nonneg(lit@.subrange(0, i + 1));
                    }
                }
                return None;
            },
            Some(m) => match m.checked_add(d) {
                None => {
                    proof {
                        if forall|k: int| 0 <= k < n ==> digit(#[trigger] lit@[k]) {
                            lemma_digits_prefix(lit@, i + 1);
                        }
                    }
                    return None;
                },
                Some(v) => {
                    acc = v;
                },
            },
        }
        i = i + 1;
    }
    proof {
        assert(lit@.subrange(0, n as int) =~= lit@);
    }
    Some(acc)
}

/// The binding power of a token kind (see `prec_of`).
fn to_precedence(t: Type) -> (r: u8)
    ensures
        r == prec_of(t),
{
    match t {
        Type::Equ | Type::Neq => EQUALS,
        Type::Lt | Type::Gt => LESS_GREATER,
        Type::Plus | Type::Minus => SUM,
        Type::Slash | Type::Asterisk => PRODUCT,
        Type::Lparen => CALL,
        _ => LOWEST,
    }
}

/// Token sequences as a scanner yields them: `Eof` last and nowhere
/// before, and every `let` and `return` keyword spelled as such.
pub open spec fn lexed(ts: Seq<(Type, Seq<char>)>) -> bool {
    &&& ts.len() >= 1
    &&& ts[ts.len() - 1] == (Type::Eof, Seq::<char>::empty())
    &&& forall|i: int| 0 <= i < ts.len() - 1 ==> (#[trigger] ts[i]).0 != Type::Eof
    &&& forall|i: int| 0 <= i < ts.len() && (#[trigger] ts[i]).0 == Type::Let ==> ts[i].1 == "let"@
    &&& forall|i: int| 0 <= i < ts.len() && (#[trigger] ts[i]).0 == Type::Return ==> ts[i].1
        == "return"@
}

proof fn lemma_lex_end(s: Seq<char>, p: int)
    requires
        0 <= p <= s.len(),
        lex_next(s, p).0 == Type::Eof,
    ensures
        lex_next(s, lex_next(s, p).2) == (Type::Eof, Seq::<char>::empty(), lex_next(s, p).2),
{
    let q = skip_spaces(s, p);
    assert(char_at(s, q) == '\0');
    assert(skip_spaces(s, q) == q);
}

proof fn lemma_lex_all(s: Seq<char>, p: int)
    requires
        0 <= p <= s.len(),
    ensures
        lexed(lex_all(s, p)),
    decreases s.len() - p,
{
    lemma_lex_progress(s, p);
    let (t, lit, q) = lex_next(s, p);
    let all = lex_all(s, p);
    if t != Type::Eof {
        lemma_lex_all(s, q);
        let rest = lex_all(s, q);
        assert(all == seq![(t, lit)] + rest);
        assert forall|i: int| 0 <= i < all.len() - 1 implies (#[trigger] all[i]).0 != Type::Eof by {
            if i > 0 {
                assert(all[i] == rest[i - 1]);
            }
        }
        assert forall|i: int| 0 <= i < all.len() && (#[trigger] all[i]).0 == Type::Let implies all[i].1
            == "let"@ by {
            if i > 0 {
                assert(all[i] == rest[i - 1]);
            }
        }
        assert forall|i: int| 0 <= i < all.len() && (#[trigger] all[i]).0 == Type::Return implies all[i].1
            == "return"@ by {
            if i > 0 {
                assert(all[i] == rest[i - 1]);
            }
        }
        assert(all[all.len() - 1] == rest[rest.len() - 1]);
    }
}

/// The kind and text of the token at `p`; `Eof` with no text past the end.
pub open spec fn tok_at(ts: Seq<(Type, Seq<char>)>, p: int) -> (Type, Seq<char>) {
    (kind_at(ts, p), text_at(ts, p))
}

/// A parser over the tokens of one source text. It owns a scanner, holds
/// the current token and one token of lookahead, and pulls one new token
/// from the scanner each time it advances.
pub struct Parser {
    l: Lexer,
    cur_token: Token,
    peek_token: Token,
    errors: Vec<ParseError>,
    toks: Ghost<Seq<(Type, Seq<char>)>>,
    pos: Ghost<int>,
}

/// `new` moved on from `old` inside the same tokens.
pub open spec fn steps(old: Parser, new: Parser) -> bool {
    &&& new.wf()
    &&& new.tokens() == old.tokens()
    &&& old.position() <= new.position()
}

/// `new` stands at `q` and has recorded the errors `e` since `old`.
pub open spec fn reports(old: Parser, new: Parser, q: int, e: Seq<ParseErrorV>) -> bool {
    &&& new.position() == q
    &&& new.diagnostics() == old.diagnostics() + e
}

/// A parser over the tokens that `l` yields from where it stands. It pulls
/// exactly two of them, the current token and the lookahead, and goes on
/// with a scanner of its own from there.
pub fn new(l: &mut Lexer) -> (p: Parser)
    requires
        old(l).wf(),
    ensures
        final(l).wf(),
        final(l).text() == old(l).text(),
        ({
            let s = old(l).text();
            let first = lex_next(s, old(l).position());
            let second = lex_next(s, first.2);
            &&& final(l).position() == second.2
            &&& p.current() == (first.0, first.1)
            &&& p.lookahead() == (second.0, second.1)
        }),
        p.wf(),
        p.tokens() == lex_all(old(l).text(), old(l).position()),
        p.position() == 0,
        p.diagnostics() == Seq::<ParseErrorV>::empty(),
{
    let ghost s = l.text();
    let ghost p0 = l.position();
    proof {
        l.lemma_bounds();
        lemma_lex_progress(s, p0);
        lemma_lex_all(s, p0);
    }
    let first = l.next_token();
    let ghost q1 = l.position();
    proof {
        lemma_lex_progress(s, q1);
        if first.t == Type::Eof {
            lemma_lex_end(s, p0);
        } else {
            lemma_lex_all(s, q1);
        }
    }
    let second = l.next_token();
    let ghost q2 = l.position();
    let ghost ts = lex_all(s, p0);
    proof {
        if first.t == Type::Eof {
            assert(ts == seq![(first.t, first.literal@)]);
        } else {
            let r1 = lex_all(s, q1);
            assert(ts == seq![(first.t, first.literal@)] + r1);
            assert(ts[1] == r1[0]);
            if second.t == Type::Eof {
                lemma_lex_end(s, q1);
                assert(r1 == seq![(second.t, second.literal@)]);
            } else {
                lemma_lex_progress(s, q2);
                let r2 = lex_all(s, q2);
                assert(r1 == seq![(second.t, second.literal@)] + r2);
                assert(ts.subrange(2, ts.len() as int) =~= r2);
            }
        }
    }
    let errors: Vec<ParseError> = Vec::new();
    let p = Parser {
        l: l.duplicate(),
        cur_token: first,
        peek_token: second,
        errors,
        toks: Ghost(ts),
        pos: Ghost(0),
    };
    proof {
        assert(p.diagnostics() =~= Seq::<ParseErrorV>::empty());
    }
    p
}

impl Parser {
    /// The tokens being parsed: all that the scanner yields, up to and
    /// including the first `Eof`. Only those up to the lookahead have been
    /// pulled from it.
    pub closed spec fn tokens(&self) -> Seq<(Type, Seq<char>)> {
        self.toks@
    }

    /// The position of the current token among `tokens()`.
    pub closed spec fn position(&self) -> int {
        self.pos@
    }

    /// The current token's kind and text.
    pub closed spec fn current(&self) -> (Type, Seq<char>) {
        (self.cur_token.t, self.cur_token.literal@)
    }

    /// The lookahead token's kind and text.
    pub closed spec fn lookahead(&self) -> (Type, Seq<char>) {
        (self.peek_token.t, self.peek_token.literal@)
    }

    /// The errors recorded so far, in order.
    pub closed spec fn diagnostics(&self) -> Seq<ParseErrorV> {
        self.errors@.map_values(|e: ParseError| err_view(e))
    }

    /// The current token is the one at `position()`, the lookahead the one
    /// after it, and the scanner stands just after the lookahead.
    pub closed spec fn wf(&self) -> bool {
        &&& self.l.wf()
        &&& lexed(self.toks@)
        &&& 0 <= self.pos@ <= self.toks@.len()
        &&& self.current() == tok_at(self.toks@, self.pos@)
        &&& self.lookahead() == tok_at(self.toks@, self.pos@ + 1)
        &&& if self.pos@ + 2 < self.toks@.len() {
            lex_all(self.l.text(), self.l.position()) == self.toks@.subrange(
                self.pos@ + 2,
                self.toks@.len() as int,
            )
        } else {
            lex_next(self.l.text(), self.l.position()) == (
                Type::Eof,
                Seq::<char>::empty(),
                self.l.position(),
            )
        }
    }

    /// The errors recorded so far, in order.
    pub fn errors(&self) -> (r: &Vec<ParseError>)
        ensures
            r@.map_values(|e: ParseError| err_view(e)) == self.diagnostics(),
    {
        &self.errors
    }

    fn record(&mut self, e: ParseError)
        requires
            old(self).wf(),
        ensures
            final(self).wf(),
            final(self).tokens() == old(self).tokens(),
            final(self).position() == old(self).position(),
            final(self).diagnostics() == old(self).diagnostics().push(err_view(e)),
    {
        let ghost before = self.diagnostics();
        let ghost ev = err_view(e);
        self.errors.push(e);
        proof {
            assert(self.diagnostics() =~= before.push(ev));
        }
    }

    /// Parses statements up to the end of input, leaving out those that fail
    /// (see `items_spec`); their errors are recorded.
    pub fn parse_program(&mut self) -> (r: Program)
        requires
            old(self).wf(),
        ensures
            steps(*old(self), *final(self)),
            ({
                let sp = items_spec(old(self).tokens(), old(self).position(), false);
                &&& stmts_view(r.stmts@) == sp.0
                &&& reports(*old(self), *final(self), sp.1, sp.2)
            }),
            tokened_stmts(r.stmts@),
    {
        let stmts = self.parse_stmts(false);
        Program { stmts }
    }

    #[verifier::rlimit(100)]
    fn parse_stmts(&mut self, in_block: bool) -> (r: Vec<Stmt>)
        requires
            old(self).wf(),
        ensures
            steps(*old(self), *final(self)),
            ({
                let sp = items_spec(old(self).tokens(), old(self).position(), in_block);
                &&& stmts_view(r@) == sp.0
                &&& reports(*old(self), *final(self), sp.1, sp.2)
            }),
            tokened_stmts(r@),
        decreases old(self).toks@.len() - old(self).pos@, 5int,
    {
        let ghost ts = self.toks@;
        let ghost p0 = self.pos@;
        let ghost e0 = self.diagnostics();
        let mut stmts: Vec<Stmt> = Vec::new();
        while !(self.cur_token_is(Type::Eof) || (in_block && self.cur_token_is(Type::Rbrace)))
            invariant
                self.wf(),
                self.toks@ == ts,
                ts == old(self).toks@,
                e0 == old(self).diagnostics(),
                0 <= p0 <= self.pos@,
                p0 == old(self).pos@,
                tokened_stmts(stmts@),
                items_spec(ts, p0, in_block).0 == stmts_view(stmts@) + items_spec(
                    ts,
                    self.pos@,
                    in_block,
                ).0,
                items_spec(ts, p0, in_block).1 == items_spec(ts, self.pos@, in_block).1,
                e0 + items_spec(ts, p0, in_block).2 == self.diagnostics() + items_spec(
                    ts,
                    self.pos@,
                    in_block,
                ).2,
            decreases ts.len() - self.pos@,
        {
            let ghost p = self.pos@;
            let ghost eb = self.diagnostics();
            let ghost sb = stmts@;
            let s = self.parse_stmt();
            let ghost q = self.pos@;
            let ghost sv = opt_stmt(s);
            match s {
                Some(st) => {
                    stmts.push(st);
                },
                None => {},
            }
            self.next_token();
            proof {
                let sp = stmt_spec(ts, p);
                let rest = items_spec(ts, self.pos@, in_block);
                if sv is Some {
                    assert(stmts@.subrange(0, stmts@.len() - 1) =~= sb);
                    assert(tokened_stmts(stmts@));
                    assert(stmts_view(sb) + (seq![sv->0] + rest.0) =~= stmts_view(stmts@)
                        + rest.0);
                } else {
                    assert(stmts@ == sb);
                }
                assert(eb + (sp.2 + rest.2) =~= self.diagnostics() + rest.2);
            }
        }
        proof {
            assert(stmts_view(stmts@) + Seq::<StmtV>::empty() =~= stmts_view(stmts@));
            assert(self.diagnostics() + Seq::<ParseErrorV>::empty() =~= self.diagnostics());
        }
        stmts
    }

    fn parse_stmt(&mut self) -> (r: Option<Stmt>)
        requires
            old(self).wf(),
            kind_at(old(self).tokens(), old(self).position()) != Type::Eof,
        ensures
            steps(*old(self), *final(self)),
            ({
                let sp = stmt_spec(old(self).tokens(), old(self).position());
                &&& opt_stmt(r) == sp.0
                &&& reports(*old(self), *final(self), sp.1, sp.2)
            }),
            r matches Some(st) ==> tokened_stmt(st),
        decreases old(self).toks@.len() - old(self).pos@, 4int,
    {
        if self.cur_token_is(Type::Let) {
            self.parse_let_stmt()
        } else if self.cur_token_is(Type::Return) {
            self.parse_return_stmt()
        } else {
            self.parse_expr_stmt()
        }
    }

    fn parse_let_stmt(&mut self) -> (r: Option<Stmt>)
        requires
            old(self).wf(),
            kind_at(old(self).tokens(), old(self).position()) == Type::Let,
        ensures
            steps(*old(self), *final(self)),
            ({
                let sp = let_spec(old(self).tokens(), old(self).position());
                &&& opt_stmt(r) == sp.0
                &&& reports(*old(self), *final(self), sp.1, sp.2)
            }),
            r matches Some(st) ==> tokened_stmt(st),
        decreases old(self).toks@.len() - old(self).pos@, 3int,
    {
        let ghost e0 = self.diagnostics();
        let t = self.cur_token();
        if !self.expect_peek(Type::Ident) {
            return None;
        }
        let nt = self.cur_token();
        let val = nt.literal.clone();
        let name = Ident { token: nt, val };
        if !self.expect_peek(Type::Assign) {
            return None;
        }
        self.next_token();
        let v = self.parse_expr(LOWEST);
        match v {
            None => None,
            Some(val) => {
                if self.peek_token_is(Type::Semicolon) {
                    self.next_token();
                }
                Some(Stmt::Let(Let { token: t, name, val }))
            },
        }
    }

    fn parse_return_stmt(&mut self) -> (r: Option<Stmt>)
        requires
            old(self).wf(),
            kind_at(old(self).tokens(), old(self).position()) == Type::Return,
        ensures
            steps(*old(self), *final(self)),
            ({
                let sp = return_spec(old(self).tokens(), old(self).position());
                &&& opt_stmt(r) == sp.0
                &&& reports(*old(self), *final(self), sp.1, sp.2)
            }),
            r matches Some(st) ==> tokened_stmt(st),
        decreases old(self).toks@.len() - old(self).pos@, 3int,
    {
        let t = self.cur_token();
        self.next_token();
        let v = self.parse_expr(LOWEST);
        match v {
            None => None,
            Some(val) => {
                if self.peek_token_is(Type::Semicolon) {
                    self.next_token();
                }
                Some(Stmt::Return(Return { token: t, val }))
            },
        }
    }

    fn parse_expr_stmt(&mut self) -> (r: Option<Stmt>)
        requires
            old(self).wf(),
            kind_at(old(self).tokens(), old(self).position()) != Type::Eof,
        ensures
            steps(*old(self), *final(self)),
            ({
                let sp = expr_stmt_spec(old(self).tokens(), old(self).position());
                &&& opt_stmt(r) == sp.0
                &&& reports(*old(self), *final(self), sp.1, sp.2)
            }),
            r matches Some(st) ==> tokened_stmt(st),
        decreases old(self).toks@.len() - old(self).pos@, 3int,
    {
        let t = self.cur_token();
        let v = self.parse_expr(LOWEST);
        match v {
            None => None,
            Some(expr) => {
                if self.peek_token_is(Type::Semicolon) {
                    self.next_token();
                }
                Some(Stmt::ExprStmt(ExprStmt { token: t, expr }))
            },
        }
    }

    /// `{ STATEMENTS }`, from the `{` that is the current token.
    fn parse_block(&mut self) -> (r: Option<Block>)
        requires
            old(self).wf(),
            kind_at(old(self).tokens(), old(self).position()) == Type::Lbrace,
        ensures
            steps(*old(self), *final(self)),
            ({
                let sp = block_spec(old(self).tokens(), old(self).position());
                &&& match r {
                    Some(b) => sp.0 == Some(stmts_view(b.stmts@)),
                    None => sp.0 is None,
                }
                &&& reports(*old(self), *final(self), sp.1, sp.2)
            }),
            r matches Some(b) ==> b.token.t == Type::Lbrace && tokened_stmts(b.stmts@),
        decreases old(self).toks@.len() - old(self).pos@, 0int,
    {
        let t = self.cur_token();
        self.next_token();
        let stmts = self.parse_stmts(true);
        if self.cur_token_is(Type::Rbrace) {
            Some(Block { token: t, stmts })
        } else {
            let got = self.cur_kind();
            let ghost eb = self.diagnostics();
            self.record(ParseError::UnexpectedToken { expected: Type::Rbrace, got });
            proof {
                let sp = items_spec(old(self).toks@, old(self).pos@ + 1, true);
                assert(self.diagnostics() =~= old(self).diagnostics() + (sp.2 + unexpected(Type::Rbrace, got)));
            }
            None
        }
    }

    /// An expression whose operators bind tighter than `prec`.
    fn parse_expr(&mut self, prec: u8) -> (r: Option<Expr>)
        requires
            old(self).wf(),
        ensures
            steps(*old(self), *final(self)),
            ({
                let sp = expr_spec(old(self).tokens(), old(self).position(), prec);
                &&& opt_expr(r) == sp.0
                &&& reports(*old(self), *final(self), sp.1, sp.2)
            }),
            r matches Some(x) ==> tokened_expr(x),
        decreases old(self).toks@.len() - old(self).pos@, 2int,
    {
        let ghost ts = self.toks@;
        let ghost p0 = self.pos@;
        let ghost e0 = self.diagnostics();
        let l = self.prefix_parse();
        let mut lhs = match l {
            None => {
                return None;
            },
            Some(e) => e,
        };
        proof {
            let sp = prefix_spec(ts, p0);
            let ip = infix_spec(ts, self.pos@, prec, expr_view(lhs));
            assert(e0 + (sp.2 + ip.2) =~= self.diagnostics() + ip.2);
        }
        while prec < self.peek_precedence()
            invariant
                self.wf(),
                self.toks@ == ts,
                ts == old(self).toks@,
                e0 == old(self).diagnostics(),
                0 <= p0 <= self.pos@,
                p0 == old(self).pos@,
                tokened_expr(lhs),
                expr_spec(ts, p0, prec).0 == infix_spec(ts, self.pos@, prec, expr_view(lhs)).0,
                expr_spec(ts, p0, prec).1 == infix_spec(ts, self.pos@, prec, expr_view(lhs)).1,
                e0 + expr_spec(ts, p0, prec).2 == self.diagnostics() + infix_spec(
                    ts,
                    self.pos@,
                    prec,
                    expr_view(lhs),
                ).2,
            decreases ts.len() - self.pos@,
        {
            let ghost q = self.pos@;
            let ghost eb = self.diagnostics();
            let ghost lv = expr_view(lhs);
            if self.peek_token_is(Type::Lparen) {
                self.next_token();
                match self.parse_call(lhs) {
                    None => {
                        return None;
                    },
                    Some(e) => {
                        lhs = e;
                    },
                }
            } else {
                self.next_token();
                match self.parse_infix(lhs) {
                    None => {
                        return None;
                    },
                    Some(e) => {
                        lhs = e;
                    },
                }
            }
            proof {
                let sp = infix_spec(ts, q, prec, lv);
                let rest = infix_spec(ts, self.pos@, prec, expr_view(lhs));
                assert(eb + sp.2 =~= self.diagnostics() + rest.2);
            }
        }
        proof {
            assert(self.diagnostics() + Seq::<ParseErrorV>::empty() =~= self.diagnostics());
        }
        Some(lhs)
    }

    /// `lhs OP EXPR`, from the operator that is the current token.
    fn parse_infix(&mut self, lhs: Expr) -> (r: Option<Expr>)
        requires
            old(self).wf(),
            tokened_expr(lhs),
            kind_at(old(self).tokens(), old(self).position()) != Type::Eof,
        ensures
            steps(*old(self), *final(self)),
            ({
                let ts = old(self).tokens();
                let p = old(self).position();
                let sp = expr_spec(ts, p + 1, prec_of(kind_at(ts, p)));
                &&& p < final(self).position()
                &&& opt_expr(r) == match sp.0 {
                    Some(rv) => Some(
                        ExprV::Infix(Box::new(expr_view(lhs)), text_at(ts, p), Box::new(rv)),
                    ),
                    None => None,
                }
                &&& reports(*old(self), *final(self), sp.1, sp.2)
            }),
            r matches Some(x) ==> tokened_expr(x),
        decreases old(self).toks@.len() - old(self).pos@, 1int,
    {
        let t = self.cur_token();
        let op = t.literal.clone();
        let prec = self.cur_precedence();
        self.next_token();
        match self.parse_expr(prec) {
            None => None,
            Some(rhs) => Some(
                Expr::Infix(Infix { token: t, lhs: Box::new(lhs), op, rhs: Box::new(rhs) }),
            ),
        }
    }

    /// `func ( ARGS )`, from the `(` that is the current token.
    fn parse_call(&mut self, func: Expr) -> (r: Option<Expr>)
        requires
            old(self).wf(),
            tokened_expr(func),
            kind_at(old(self).tokens(), old(self).position()) == Type::Lparen,
        ensures
            steps(*old(self), *final(self)),
            ({
                let ts = old(self).tokens();
                let sp = args_spec(ts, adv(ts, old(self).position()));
                &&& opt_expr(r) == match sp.0 {
                    Some(a) => Some(ExprV::Call(Box::new(expr_view(func)), a)),
                    None => None,
                }
                &&& reports(*old(self), *final(self), sp.1, sp.2)
            }),
            r matches Some(x) ==> tokened_expr(x),
        decreases old(self).toks@.len() - old(self).pos@, 1int,
    {
        let t = self.cur_token();
        match self.parse_call_args() {
            None => None,
            Some(args) => Some(Expr::Call(Call { token: t, func: Box::new(func), args })),
        }
    }

    fn parse_call_args(&mut self) -> (r: Option<Vec<Expr>>)
        requires
            old(self).wf(),
            kind_at(old(self).tokens(), old(self).position()) == Type::Lparen,
        ensures
            steps(*old(self), *final(self)),
            ({
                let ts = old(self).tokens();
                let sp = args_spec(ts, adv(ts, old(self).position()));
                &&& match r {
                    Some(a) => sp.0 == Some(exprs_view(a@)),
                    None => sp.0 is None,
                }
                &&& reports(*old(self), *final(self), sp.1, sp.2)
            }),
            r matches Some(a) ==> tokened_exprs(a@),
        decreases old(self).toks@.len() - old(self).pos@, 0int,
    {
        let ghost ts = self.toks@;
        let ghost e0 = self.diagnostics();
        self.next_token();
        let ghost p0 = self.pos@;
        let mut args: Vec<Expr> = Vec::new();
        while !self.cur_token_is(Type::Rparen)
            invariant
                self.wf(),
                self.toks@ == ts,
                ts == old(self).toks@,
                e0 == old(self).diagnostics(),
                0 < p0 <= self.pos@,
                p0 == adv(ts, old(self).pos@),
                old(self).pos@ < p0,
                tokened_exprs(args@),
                e0 + args_spec(ts, p0).2 == self.diagnostics() + args_spec(ts, self.pos@).2,
                args_spec(ts, p0).1 == args_spec(ts, self.pos@).1,
                args_spec(ts, p0).0 == match args_spec(ts, self.pos@).0 {
                    Some(rest) => Some(exprs_view(args@) + rest),
                    None => None::<Seq<ExprV>>,
                },
            decreases ts.len() - self.pos@,
        {
            let ghost p = self.pos@;
            let ghost eb = self.diagnostics();
            let ghost ab = args@;
            if self.cur_token_is(Type::Eof) {
                self.record(ParseError::UnexpectedToken { expected: Type::Rparen, got: Type::Eof });
                proof {
                    assert(e0 + args_spec(ts, p0).2 =~= self.diagnostics());
                }
                return None;
            }
            let a = self.parse_expr(LOWEST);
            match a {
                None => {
                    proof {
                        assert(e0 + args_spec(ts, p0).2 =~= self.diagnostics());
                    }
                    return None;
                },
                Some(arg) => {
                    args.push(arg);
                },
            }
            self.next_token();
            if self.cur_token_is(Type::Comma) {
                self.next_token();
            }
            proof {
                let sp = args_spec(ts, p);
                let rest = args_spec(ts, self.pos@);
                assert(args@.subrange(0, args@.len() - 1) =~= ab);
                assert(tokened_exprs(args@));
                assert(eb + sp.2 =~= self.diagnostics() + rest.2);
                if rest.0 is Some {
                    assert(exprs_view(ab) + (seq![expr_view(args@[args@.len() - 1])]
                        + rest.0->0) =~= exprs_view(args@) + rest.0->0);
                }
            }
        }
        proof {
            assert(exprs_view(args@) + Seq::<ExprV>::empty() =~= exprs_view(args@));
            assert(self.diagnostics() + Seq::<ParseErrorV>::empty() =~= self.diagnostics());
        }
        Some(args)
    }

    /// An expression introduced by the current token.
    fn prefix_parse(&mut self) -> (r: Option<Expr>)
        requires
            old(self).wf(),
        ensures
            steps(*old(self), *final(self)),
            ({
                let sp = prefix_spec(old(self).tokens(), old(self).position());
                &&& opt_expr(r) == sp.0
                &&& reports(*old(self), *final(self), sp.1, sp.2)
            }),
            r matches Some(x) ==> tokened_expr(x),
        decreases old(self).toks@.len() - old(self).pos@, 1int,
    {
        let ghost e0 = self.diagnostics();
        match self.cur_kind() {
            Type::Ident => Some(Expr::Ident(self.parse_ident())),
            Type::Int => self.parse_int(),
            Type::True | Type::False => Some(Expr::Boolean(self.parse_boolean())),
            Type::Lparen => self.parse_grouped_expr(),
            Type::If => self.parse_if(),
            Type::Function => self.parse_func(),
            Type::Minus | Type::Bang => self.parse_prefix(),
            got => {
                self.record(ParseError::NoPrefixRule { got });
                proof {
                    assert(self.diagnostics() =~= e0 + seq![ParseErrorV::NoPrefixRule { got }]);
                }
                None
            },
        }
    }

    fn parse_ident(&self) -> (r: Ident)
        requires
            self.wf(),
            kind_at(self.tokens(), self.position()) == Type::Ident,
            self.position() < self.tokens().len(),
        ensures
            r.val@ == text_at(self.tokens(), self.position()),
            tokened_ident(r),
    {
        let t = self.cur_token();
        let val = t.literal.clone();
        Ident { token: t, val }
    }

    fn parse_int(&mut self) -> (r: Option<Expr>)
        requires
            old(self).wf(),
            kind_at(old(self).tokens(), old(self).position()) == Type::Int,
        ensures
            steps(*old(self), *final(self)),
            ({
                let sp = prefix_spec(old(self).tokens(), old(self).position());
                &&& opt_expr(r) == sp.0
                &&& reports(*old(self), *final(self), sp.1, sp.2)
            }),
            r matches Some(x) ==> tokened_expr(x),
    {
        let t = self.cur_token();
        match literal_value(&t.literal) {
            Some(val) => Some(Expr::Int(Int { token: t, val })),
            None => {
                let ghost e0 = self.diagnostics();
                let ghost lit = t.literal;
                self.record(ParseError::BadInteger { literal: t.literal });
                proof {
                    assert(self.diagnostics() =~= e0 + seq![ParseErrorV::BadInteger { literal: lit@ }]);
                }
                None
            },
        }
    }

    fn parse_boolean(&self) -> (r: Boolean)
        requires
            self.wf(),
            kind_at(self.tokens(), self.position()) == Type::True || kind_at(
                self.tokens(),
                self.position(),
            ) == Type::False,
            self.position() < self.tokens().len(),
        ensures
            r.val == (kind_at(self.tokens(), self.position()) == Type::True),
            (r.token.t == Type::True && r.val) || (r.token.t == Type::False && !r.val),
    {
        let t = self.cur_token();
        let val = t.t == Type::True;
        Boolean { token: t, val }
    }

    fn parse_grouped_expr(&mut self) -> (r: Option<Expr>)
        requires
            old(self).wf(),
            kind_at(old(self).tokens(), old(self).position()) == Type::Lparen,
        ensures
            steps(*old(self), *final(self)),
            ({
                let sp = grouped_spec(old(self).tokens(), old(self).position());
                &&& opt_expr(r) == sp.0
                &&& reports(*old(self), *final(self), sp.1, sp.2)
            }),
            r matches Some(x) ==> tokened_expr(x),
        decreases old(self).toks@.len() - old(self).pos@, 0int,
    {
        let ghost e0 = self.diagnostics();
        self.next_token();
        let e = self.parse_expr(LOWEST);
        match e {
            None => None,
            Some(inner) => {
                let ghost eb = self.diagnostics();
                if self.expect_peek(Type::Rparen) {
                    Some(inner)
                } else {
                    proof {
                        let sp = expr_spec(old(self).toks@, old(self).pos@ + 1, LOWEST);
                        assert(self.diagnostics() =~= e0 + (sp.2 + unexpected(
                            Type::Rparen,
                            kind_at(old(self).toks@, sp.1 + 1),
                        )));
                    }
                    None
                }
            },
        }
    }

    fn parse_prefix(&mut self) -> (r: Option<Expr>)
        requires
            old(self).wf(),
            kind_at(old(self).tokens(), old(self).position()) == Type::Minus || kind_at(
                old(self).tokens(),
                old(self).position(),
            ) == Type::Bang,
        ensures
            steps(*old(self), *final(self)),
            ({
                let sp = prefix_spec(old(self).tokens(), old(self).position());
                &&& opt_expr(r) == sp.0
                &&& reports(*old(self), *final(self), sp.1, sp.2)
            }),
            r matches Some(x) ==> tokened_expr(x),
        decreases old(self).toks@.len() - old(self).pos@, 0int,
    {
        let t = self.cur_token();
        let op = t.literal.clone();
        self.next_token();
        match self.parse_expr(PREFIX) {
            None => None,
            Some(rhs) => Some(Expr::Prefix(Prefix { token: t, op, rhs: Box::new(rhs) })),
        }
    }

    #[verifier::rlimit(50)]
    fn parse_if(&mut self) -> (r: Option<Expr>)
        requires
            old(self).wf(),
            kind_at(old(self).tokens(), old(self).position()) == Type::If,
        ensures
            steps(*old(self), *final(self)),
            ({
                let sp = if_spec(old(self).tokens(), old(self).position());
                &&& opt_expr(r) == sp.0
                &&& reports(*old(self), *final(self), sp.1, sp.2)
            }),
            r matches Some(x) ==> tokened_expr(x),
        decreases old(self).toks@.len() - old(self).pos@, 0int,
    {
        let ghost e0 = self.diagnostics();
        let t = self.cur_token();
        if !self.expect_peek(Type::Lparen) {
            return None;
        }
        self.next_token();
        let cond = match self.parse_expr(LOWEST) {
            None => {
                return None;
            },
            Some(c) => c,
        };
        if !self.expect_peek(Type::Rparen) {
            proof {
                assert(self.diagnostics() =~= e0 + (if_spec(old(self).toks@, old(self).pos@).2));
            }
            return None;
        }
        let ghost e1 = self.diagnostics();
        if !self.expect_peek(Type::Lbrace) {
            proof {
                assert(self.diagnostics() =~= e0 + (if_spec(old(self).toks@, old(self).pos@).2));
            }
            return None;
        }
        let cons = match self.parse_block() {
            None => {
                proof {
                    assert(self.diagnostics() =~= e0 + (if_spec(old(self).toks@, old(self).pos@).2));
                }
                return None;
            },
            Some(b) => b,
        };
        let ghost e2 = self.diagnostics();
        if !self.peek_token_is(Type::Else) {
            proof {
                assert(self.diagnostics() =~= e0 + (if_spec(old(self).toks@, old(self).pos@).2));
            }
            return Some(Expr::If(If { token: t, cond: Box::new(cond), cons, alt: None }));
        }
        self.next_token();
        if !self.expect_peek(Type::Lbrace) {
            proof {
                assert(self.diagnostics() =~= e0 + (if_spec(old(self).toks@, old(self).pos@).2));
            }
            return None;
        }
        match self.parse_block() {
            None => {
                proof {
                    assert(self.diagnostics() =~= e0 + (if_spec(old(self).toks@, old(self).pos@).2));
                }
                None
            },
            Some(alt) => {
                proof {
                    assert(self.diagnostics() =~= e0 + (if_spec(old(self).toks@, old(self).pos@).2));
                }
                Some(Expr::If(If { token: t, cond: Box::new(cond), cons, alt: Some(alt) }))
            },
        }
    }

    fn parse_func(&mut self) -> (r: Option<Expr>)
        requires
            old(self).wf(),
            kind_at(old(self).tokens(), old(self).position()) == Type::Function,
        ensures
            steps(*old(self), *final(self)),
            ({
                let sp = func_spec(old(self).tokens(), old(self).position());
                &&& opt_expr(r) == sp.0
                &&& reports(*old(self), *final(self), sp.1, sp.2)
            }),
            r matches Some(x) ==> tokened_expr(x),
        decreases old(self).toks@.len() - old(self).pos@, 0int,
    {
        let ghost e0 = self.diagnostics();
        let t = self.cur_token();
        if !self.expect_peek(Type::Lparen) {
            return None;
        }
        let params = match self.parse_func_params() {
            None => {
                return None;
            },
            Some(ps) => ps,
        };
        if !self.expect_peek(Type::Lbrace) {
            proof {
                assert(self.diagnostics() =~= e0 + (func_spec(old(self).toks@, old(self).pos@).2));
            }
            return None;
        }
        match self.parse_block() {
            None => {
                proof {
                    assert(self.diagnostics() =~= e0 + (func_spec(old(self).toks@, old(self).pos@).2));
                }
                None
            },
            Some(body) => {
                proof {
                    assert(self.diagnostics() =~= e0 + (func_spec(old(self).toks@, old(self).pos@).2));
                }
                Some(Expr::Func(Func { token: t, params, body }))
            },
        }
    }

    /// Parameter names, from the `(` that is the current token.
    fn parse_func_params(&mut self) -> (r: Option<Vec<Ident>>)
        requires
            old(self).wf(),
            kind_at(old(self).tokens(), old(self).position()) == Type::Lparen,
        ensures
            steps(*old(self), *final(self)),
            ({
                let ts = old(self).tokens();
                let sp = params_spec(ts, old(self).position() + 1);
                &&& old(self).position() + 1 <= final(self).position()
                &&& match r {
                    Some(ps) => sp.0 == Some(names_view(ps@)),
                    None => sp.0 is None,
                }
                &&& reports(*old(self), *final(self), sp.1, sp.2)
            }),
            r matches Some(ps) ==> forall|k: int| 0 <= k < ps@.len() ==> tokened_ident(#[trigger] ps@[k]),
    {
        let ghost ts = self.toks@;
        let ghost e0 = self.diagnostics();
        self.next_token();
        let ghost p0 = self.pos@;
        let mut params: Vec<Ident> = Vec::new();
        while !self.cur_token_is(Type::Rparen)
            invariant
                self.wf(),
                self.toks@ == ts,
                ts == old(self).toks@,
                e0 == old(self).diagnostics(),
                p0 <= self.pos@,
                p0 == old(self).pos@ + 1,
                forall|k: int| 0 <= k < params@.len() ==> tokened_ident(#[trigger] params@[k]),
                e0 + params_spec(ts, p0).2 == self.diagnostics() + params_spec(ts, self.pos@).2,
                params_spec(ts, p0).1 == params_spec(ts, self.pos@).1,
                params_spec(ts, p0).0 == match params_spec(ts, self.pos@).0 {
                    Some(rest) => Some(names_view(params@) + rest),
                    None => None::<Seq<Seq<char>>>,
                },
            decreases ts.len() - self.pos@,
        {
            let ghost pb = params@;
            if !self.cur_token_is(Type::Ident) {
                let got = self.cur_kind();
                let expected = if got == Type::Eof {
                    Type::Rparen
                } else {
                    Type::Ident
                };
                self.record(ParseError::UnexpectedToken { expected, got });
                proof {
                    assert(e0 + params_spec(ts, p0).2 =~= self.diagnostics());
                }
                return None;
            }
            let param = self.parse_ident();
            params.push(param);
            self.next_token();
            if self.cur_token_is(Type::Comma) {
                self.next_token();
            }
            proof {
                assert(params@.subrange(0, params@.len() - 1) =~= pb);
                let rest = params_spec(ts, self.pos@);
                if rest.0 is Some {
                    assert(names_view(pb) + (seq![param.val@] + rest.0->0) =~= names_view(params@)
                        + rest.0->0);
                }
            }
        }
        proof {
            assert(names_view(params@) + Seq::<Seq<char>>::empty() =~= names_view(params@));
            assert(self.diagnostics() + Seq::<ParseErrorV>::empty() =~= self.diagnostics());
        }
        Some(params)
    }

    fn next_token(&mut self)
        requires
            old(self).wf(),
        ensures
            final(self).wf(),
            final(self).tokens() == old(self).tokens(),
            final(self).diagnostics() == old(self).diagnostics(),
            final(self).position() == adv(old(self).tokens(), old(self).position()),
    {
        let ghost ts = self.toks@;
        let ghost p = self.pos@;
        let ghost s = self.l.text();
        let ghost lp = self.l.position();
        proof {
            self.l.lemma_bounds();
            if p + 2 < ts.len() {
                lemma_lex_progress(s, lp);
            }
        }
        let next = self.l.next_token();
        proof {
            if p + 2 < ts.len() {
                let q = self.l.position();
                let all = lex_all(s, lp);
                assert(all[0] == ts[p + 2]);
                if next.t == Type::Eof {
                    lemma_lex_end(s, lp);
                    assert(p + 3 == ts.len());
                } else {
                    lemma_lex_progress(s, q);
                    assert(all == seq![(next.t, next.literal@)] + lex_all(s, q));
                    assert(p + 3 < ts.len());
                    let tail = all.subrange(1, all.len() as int);
                    assert(tail =~= lex_all(s, q));
                    assert(tail =~= ts.subrange(p + 3, ts.len() as int));
                }
            }
        }
        self.cur_token = self.peek_token.duplicate();
        self.peek_token = next;
        self.pos = Ghost(if p < ts.len() { p + 1 } else { p });
    }

    /// A copy of the current token.
    fn cur_token(&self) -> (t: Token)
        requires
            self.wf(),
        ensures
            (t.t, t.literal@) == tok_at(self.tokens(), self.position()),
    {
        self.cur_token.duplicate()
    }

    fn cur_kind(&self) -> (t: Type)
        requires
            self.wf(),
        ensures
            t == kind_at(self.tokens(), self.position()),
    {
        self.cur_token.t
    }

    fn peek_kind(&self) -> (t: Type)
        requires
            self.wf(),
        ensures
            t == kind_at(self.tokens(), self.position() + 1),
    {
        self.peek_token.t
    }

    fn cur_token_is(&self, t: Type) -> (r: bool)
        requires
            self.wf(),
        ensures
            r == (kind_at(self.tokens(), self.position()) == t),
    {
        self.cur_kind() == t
    }

    fn peek_token_is(&self, t: Type) -> (r: bool)
        requires
            self.wf(),
        ensures
            r == (kind_at(self.tokens(), self.position() + 1) == t),
    {
        self.peek_kind() == t
    }

    fn cur_precedence(&self) -> (r: u8)
        requires
            self.wf(),
        ensures
            r == prec_of(kind_at(self.tokens(), self.position())),
    {
        to_precedence(self.cur_kind())
    }

    fn peek_precedence(&self) -> (r: u8)
        requires
            self.wf(),
        ensures
            r == prec_of(kind_at(self.tokens(), self.position() + 1)),
    {
        to_precedence(self.peek_kind())
    }

    /// Moves to the next token when it is of kind `t`; otherwise records the
    /// error and stays.
    fn expect_peek(&mut self, t: Type) -> (ok: bool)
        requires
            old(self).wf(),
            t != Type::Eof,
        ensures
            final(self).wf(),
            final(self).tokens() == old(self).tokens(),
            ok == (kind_at(old(self).tokens(), old(self).position() + 1) == t),
            ok ==> final(self).position() == old(self).position() + 1,
            ok ==> final(self).diagnostics() == old(self).diagnostics(),
            !ok ==> final(self).position() == old(self).position(),
            !ok ==> final(self).diagnostics() == old(self).diagnostics() + unexpected(
                t,
                kind_at(old(self).tokens(), old(self).position() + 1),
            ),
    {
        if self.peek_token_is(t) {
            self.next_token();
            true
        } else {
            self.peek_error(t);
            false
        }
    }

    fn peek_error(&mut self, t: Type)
        requires
            old(self).wf(),
        ensures
            final(self).wf(),
            final(self).tokens() == old(self).tokens(),
            final(self).position() == old(self).position(),
            final(self).diagnostics() == old(self).diagnostics() + unexpected(
                t,
                kind_at(old(self).tokens(), old(self).position() + 1),
            ),
    {
        let got = self.peek_kind();
        let ghost before = self.diagnostics();
        self.record(ParseError::UnexpectedToken { expected: t, got });
        proof {
            assert(self.diagnostics() =~= before + unexpected(t, got));
        }
    }
}

} // verus!
