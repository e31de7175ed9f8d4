//! Well-formed syntax trees written as token sequences, in the fully
//! parenthesised form that the renderer writes as text: parsing such a
//! sequence gives the tree back.
use vstd::prelude::*;
use crate::ast::{digit_text, int_text, nat_text, ExprV, StmtV};
use crate::lexer::digit;
use crate::parser::{
    within, adv, args_spec, block_spec, digits_value, expr_spec, infix_spec, int_value, items_spec,
    kind_at, params_spec, prec_of, prefix_spec, stmt_spec, text_at, CALL, LOWEST,
    PREFIX,
};
use crate::token::Type;

verus! {

/// The token kind of an operator's text.
pub open spec fn op_kind(op: Seq<char>) -> Type {
    if op == seq!['+'] {
        Type::Plus
    } else if op == seq!['-'] {
        Type::Minus
    } else if op == seq!['*'] {
        Type::Asterisk
    } else if op == seq!['/'] {
        Type::Slash
    } else if op == seq!['<'] {
        Type::Lt
    } else if op == seq!['>'] {
        Type::Gt
    } else if op == seq!['=', '='] {
        Type::Equ
    } else if op == seq!['!', '='] {
        Type::Neq
    } else if op == seq!['!'] {
        Type::Bang
    } else {
        Type::Illegal
    }
}

/// An operator that joins two operands.
pub open spec fn infix_op(op: Seq<char>) -> bool {
    let k = op_kind(op);
    k == Type::Plus || k == Type::Minus || k == Type::Asterisk || k == Type::Slash || k
        == Type::Lt || k == Type::Gt || k == Type::Equ || k == Type::Neq
}

/// An operator that applies to one operand.
pub open spec fn prefix_op(op: Seq<char>) -> bool {
    op_kind(op) == Type::Minus || op_kind(op) == Type::Bang
}

pub open spec fn t1(k: Type, s: Seq<char>) -> Seq<(Type, Seq<char>)> {
    seq![(k, s)]
}

/// An expression written as tokens, in the same form that `expr_text`
/// writes it as characters.
pub open spec fn expr_toks(e: ExprV) -> Seq<(Type, Seq<char>)>
    decreases e,
{
    match e {
        ExprV::Ident(n) => t1(Type::Ident, n),
        ExprV::Int(v) => t1(Type::Int, int_text(v)),
        ExprV::Boolean(b) => if b {
            t1(Type::True, "true"@)
        } else {
            t1(Type::False, "false"@)
        },
        ExprV::Prefix(op, r) => t1(Type::Lparen, "("@) + t1(op_kind(op), op) + expr_toks(*r) + t1(
            Type::Rparen,
            ")"@,
        ),
        ExprV::Infix(l, op, r) => t1(Type::Lparen, "("@) + expr_toks(*l) + t1(op_kind(op), op)
            + expr_toks(*r) + t1(Type::Rparen, ")"@),
        ExprV::If(c, cons, alt) => t1(Type::If, "if"@) + t1(Type::Lparen, "("@) + expr_toks(*c)
            + t1(Type::Rparen, ")"@) + t1(Type::Lbrace, "{"@) + stmts_toks(cons) + t1(
            Type::Rbrace,
            "}"@,
        ) + match alt {
            Some(a) => t1(Type::Else, "else"@) + t1(Type::Lbrace, "{"@) + stmts_toks(a) + t1(
                Type::Rbrace,
                "}"@,
            ),
            None => Seq::empty(),
        },
        ExprV::Func(ps, body) => t1(Type::Function, "fn"@) + t1(Type::Lparen, "("@) + names_toks(
            ps,
        ) + t1(Type::Rparen, ")"@) + t1(Type::Lbrace, "{"@) + stmts_toks(body) + t1(
            Type::Rbrace,
            "}"@,
        ),
        ExprV::Call(f, args) => expr_toks(*f) + t1(Type::Lparen, "("@) + args_toks(args) + t1(
            Type::Rparen,
            ")"@,
        ),
    }
}

/// The tokens of arguments separated by commas.
pub open spec fn args_toks(es: Seq<ExprV>) -> Seq<(Type, Seq<char>)>
    decreases es,
{
    if es.len() == 0 {
        Seq::empty()
    } else if es.len() == 1 {
        expr_toks(es[0])
    } else {
        expr_toks(es[0]) + t1(Type::Comma, ","@) + args_toks(es.subrange(1, es.len() as int))
    }
}

/// The tokens of a statement in a sequence, closed with `;`.
pub open spec fn stmt_toks(s: StmtV) -> Seq<(Type, Seq<char>)>
    decreases s,
{
    match s {
        StmtV::Let(n, v) => t1(Type::Let, "let"@) + t1(Type::Ident, n) + t1(Type::Assign, "="@)
            + expr_toks(v) + t1(Type::Semicolon, ";"@),
        StmtV::Return(v) => t1(Type::Return, "return"@) + expr_toks(v) + t1(Type::Semicolon, ";"@),
        StmtV::Expr(e) => expr_toks(e) + t1(Type::Semicolon, ";"@),
        StmtV::Block(ss) => t1(Type::Lbrace, "{"@) + stmts_toks(ss) + t1(Type::Rbrace, "}"@),
    }
}

/// The tokens of statements in order.
pub open spec fn stmts_toks(ss: Seq<StmtV>) -> Seq<(Type, Seq<char>)>
    decreases ss,
{
    if ss.len() == 0 {
        Seq::empty()
    } else {
        stmt_toks(ss[0]) + stmts_toks(ss.subrange(1, ss.len() as int))
    }
}

/// The tokens of parameter names separated by commas.
pub open spec fn names_toks(ps: Seq<Seq<char>>) -> Seq<(Type, Seq<char>)>
    decreases ps.len(),
{
    if ps.len() == 0 {
        Seq::empty()
    } else if ps.len() == 1 {
        t1(Type::Ident, ps[0])
    } else {
        t1(Type::Ident, ps[0]) + t1(Type::Comma, ","@) + names_toks(ps.subrange(1, ps.len() as int))
    }
}

/// Well-formed expressions: integer literals that fit in an `i64`, known
/// operators, and well-formed parts.
pub open spec fn wf_expr(e: ExprV) -> bool
    decreases e,
{
    match e {
        ExprV::Ident(_) => true,
        ExprV::Int(v) => 0 <= v <= i64::MAX,
        ExprV::Boolean(_) => true,
        ExprV::Prefix(op, r) => prefix_op(op) && wf_expr(*r),
        ExprV::Infix(l, op, r) => infix_op(op) && wf_expr(*l) && wf_expr(*r),
        ExprV::If(c, cons, alt) => wf_expr(*c) && wf_stmts(cons) && match alt {
            Some(a) => wf_stmts(a),
            None => true,
        },
        ExprV::Func(_, body) => wf_stmts(body),
        ExprV::Call(f, args) => wf_expr(*f) && wf_args(args),
    }
}

pub open spec fn wf_args(es: Seq<ExprV>) -> bool
    decreases es,
{
    es.len() == 0 || (wf_expr(es[0]) && wf_args(es.subrange(1, es.len() as int)))
}

/// Well-formed statements: no bare blocks.
pub open spec fn wf_stmt(s: StmtV) -> bool
    decreases s,
{
    match s {
        StmtV::Let(_, v) => wf_expr(v),
        StmtV::Return(v) => wf_expr(v),
        StmtV::Expr(e) => wf_expr(e),
        StmtV::Block(_) => false,
    }
}

pub open spec fn wf_stmts(ss: Seq<StmtV>) -> bool
    decreases ss,
{
    ss.len() == 0 || (wf_stmt(ss[0]) && wf_stmts(ss.subrange(1, ss.len() as int)))
}

/// Whether the tokens from `p` on begin with `s`.
pub open spec fn toks_at(ts: Seq<(Type, Seq<char>)>, p: int, s: Seq<(Type, Seq<char>)>) -> bool {
    &&& 0 <= p
    &&& p + s.len() <= ts.len()
    &&& forall|i: int| 0 <= i < s.len() ==> ts[p + i] == #[trigger] s[i]
}

/// The leftmost operand of a chain of calls.
pub open spec fn head(e: ExprV) -> ExprV
    decreases e,
{
    match e {
        ExprV::Call(f, _) => head(*f),
        _ => e,
    }
}

/// A token kind that can begin an expression.
pub open spec fn starts_expr(k: Type) -> bool {
    k == Type::Ident || k == Type::Int || k == Type::True || k == Type::False || k == Type::Lparen
        || k == Type::If || k == Type::Function
}

proof fn lemma_toks_split(ts: Seq<(Type, Seq<char>)>, p: int, a: Seq<(Type, Seq<char>)>, b: Seq<(Type, Seq<char>)>)
    requires
        toks_at(ts, p, a + b),
    ensures
        toks_at(ts, p, a),
        toks_at(ts, p + a.len(), b),
{
    assert forall|i: int| 0 <= i < a.len() implies ts[p + i] == #[trigger] a[i] by {
        assert((a + b)[i] == a[i]);
    }
    assert forall|i: int| 0 <= i < b.len() implies ts[p + a.len() + i] == #[trigger] b[i] by {
        assert((a + b)[a.len() + i] == b[i]);
        assert(p + (a.len() + i) == p + a.len() + i);
    }
}

proof fn lemma_tok_at(ts: Seq<(Type, Seq<char>)>, p: int, s: Seq<(Type, Seq<char>)>, i: int)
    requires
        toks_at(ts, p, s),
        0 <= i < s.len(),
    ensures
        kind_at(ts, p + i) == s[i].0,
        text_at(ts, p + i) == s[i].1,
        0 <= p,
        p + s.len() <= ts.len(),
{
    assert(ts[p + i] == s[i]);
}

proof fn lemma_toks_bounds(ts: Seq<(Type, Seq<char>)>, p: int, s: Seq<(Type, Seq<char>)>)
    requires
        toks_at(ts, p, s),
    ensures
        0 <= p,
        p + s.len() <= ts.len(),
{
}

proof fn lemma_expr_first(e: ExprV)
    ensures
        expr_toks(e).len() >= 1,
        starts_expr(expr_toks(e)[0].0),
        expr_toks(head(e)).len() <= expr_toks(e).len(),
        expr_toks(head(e)) == expr_toks(e).subrange(0, expr_toks(head(e)).len() as int),
    decreases e,
{
    match e {
        ExprV::Call(f, args) => {
            lemma_expr_first(*f);
            let rest = t1(Type::Lparen, "("@) + args_toks(args) + t1(Type::Rparen, ")"@);
            assert(expr_toks(e) =~= expr_toks(*f) + rest);
            assert(expr_toks(e).subrange(0, expr_toks(head(e)).len() as int) =~= expr_toks(*f).subrange(
                0,
                expr_toks(head(e)).len() as int,
            ));
        },
        _ => {
            assert(expr_toks(e).subrange(0, expr_toks(e).len() as int) =~= expr_toks(e));
        },
    }
}

proof fn lemma_nat_text(n: nat)
    ensures
        nat_text(n).len() > 0,
        forall|i: int| 0 <= i < nat_text(n).len() ==> digit(#[trigger] nat_text(n)[i]),
        digits_value(nat_text(n)) == n,
    decreases n,
{
    reveal_strlit("0");
    reveal_strlit("1");
    reveal_strlit("2");
    reveal_strlit("3");
    reveal_strlit("4");
    reveal_strlit("5");
    reveal_strlit("6");
    reveal_strlit("7");
    reveal_strlit("8");
    reveal_strlit("9");
    let d = (n % 10) as int;
    assert(digit_text(d).len() == 1 && digit(digit_text(d)[0]));
    assert(digit_text(d)[0] as int - '0' as int == d);
    if n < 10 {
        let s = digit_text(n as int);
        assert(n % 10 == n);
        assert(s.subrange(0, 0) =~= Seq::<char>::empty());
        assert(digits_value(Seq::<char>::empty()) == 0);
        assert(digits_value(s) == digits_value(s.subrange(0, 0)) * 10 + (s[0] as int - '0' as int));
    } else {
        lemma_nat_text(n / 10);
        let s = nat_text(n / 10) + digit_text(d);
        assert(s.subrange(0, s.len() - 1) =~= nat_text(n / 10));
        assert(s[s.len() - 1] == digit_text(d)[0]);
        assert((n / 10) * 10 + d == n) by (nonlinear_arith)
            requires
                d == n % 10,
        ;
    }
}

/// Whether an expression that ends just before `q` stops there when parsed
/// with binding power `prec`.
pub open spec fn stops(ts: Seq<(Type, Seq<char>)>, q: int, prec: u8) -> bool {
    prec_of(kind_at(ts, q)) <= prec && kind_at(ts, q) != Type::Else
}

proof fn lemma_int_literal(v: int)
    requires
        0 <= v <= i64::MAX,
    ensures
        int_value(int_text(v)) == Some(v),
{
    lemma_nat_text(v as nat);
}


proof fn lemma_params(ts: Seq<(Type, Seq<char>)>, p: int, ps: Seq<Seq<char>>)
    requires
        toks_at(ts, p, names_toks(ps) + t1(Type::Rparen, ")"@)),
    ensures
        params_spec(ts, p) == (
            Some(ps),
            p + names_toks(ps).len(),
            Seq::<crate::parser::ParseErrorV>::empty(),
        ),
    decreases ps.len(),
{
    lemma_toks_bounds(ts, p, names_toks(ps) + t1(Type::Rparen, ")"@));
    let n = names_toks(ps);
    let c = t1(Type::Rparen, ")"@);
    lemma_toks_split(ts, p, n, c);
    if ps.len() == 0 {
        lemma_tok_at(ts, p, n + c, 0);
        assert(ps =~= Seq::<Seq<char>>::empty());
    } else {
        let rest = ps.subrange(1, ps.len() as int);
        lemma_tok_at(ts, p, n + c, 0);
        if ps.len() == 1 {
            lemma_tok_at(ts, p, n + c, 1);
            assert(rest =~= Seq::<Seq<char>>::empty());
            lemma_toks_split(ts, p, t1(Type::Ident, ps[0]), c);
            lemma_params(ts, p + 1, rest);
            assert(seq![ps[0]] + rest =~= ps);
        } else {
            let head = t1(Type::Ident, ps[0]) + t1(Type::Comma, ","@);
            assert(n + c =~= head + (names_toks(rest) + c));
            lemma_toks_split(ts, p, head, names_toks(rest) + c);
            lemma_tok_at(ts, p, head, 1);
            lemma_params(ts, p + 2, rest);
            assert(seq![ps[0]] + rest =~= ps);
        }
    }
}

proof fn lemma_expr(ts: Seq<(Type, Seq<char>)>, p: int, prec: u8, e: ExprV)
    requires
        wf_expr(e),
        toks_at(ts, p, expr_toks(e)),
        prec < CALL,
        stops(ts, p + expr_toks(e).len(), prec),
    ensures
        expr_spec(ts, p, prec) == (
            Some(e),
            p + expr_toks(e).len() - 1,
            Seq::<crate::parser::ParseErrorV>::empty(),
        ),
    decreases e, 3int,
{
    lemma_toks_bounds(ts, p, expr_toks(e));
    lemma_expr_first(e);
    lemma_pre(ts, p, e);
    lemma_calls(ts, p, prec, e);
    let q = p + expr_toks(e).len() - 1;
    assert(infix_spec(ts, q, prec, e) == (
        Some(e),
        q,
        Seq::<crate::parser::ParseErrorV>::empty(),
    ));
    assert(Seq::<crate::parser::ParseErrorV>::empty() + Seq::<crate::parser::ParseErrorV>::empty()
        =~= Seq::<crate::parser::ParseErrorV>::empty());
}

proof fn lemma_pre(ts: Seq<(Type, Seq<char>)>, p: int, e: ExprV)
    requires
        wf_expr(e),
        toks_at(ts, p, expr_toks(e)),
        kind_at(ts, p + expr_toks(e).len()) != Type::Else,
    ensures
        prefix_spec(ts, p) == (
            Some(head(e)),
            p + expr_toks(head(e)).len() - 1,
            Seq::<crate::parser::ParseErrorV>::empty(),
        ),
    decreases e, 2int,
{
    lemma_toks_bounds(ts, p, expr_toks(e));
    lemma_tok_at(ts, p, expr_toks(e), 0);
    match e {
        ExprV::Int(v) => {
            lemma_int_literal(v);
        },
        ExprV::Prefix(_, _) => {
            lemma_pre_prefix(ts, p, e);
            assert(prefix_spec(ts, p) == crate::parser::grouped_spec(ts, p));
        },
        ExprV::Infix(_, _, _) => {
            lemma_pre_infix(ts, p, e);
            assert(prefix_spec(ts, p) == crate::parser::grouped_spec(ts, p));
        },
        ExprV::If(_, _, _) => {
            lemma_pre_if(ts, p, e);
            assert(prefix_spec(ts, p) == crate::parser::if_spec(ts, p));
        },
        ExprV::Func(_, _) => {
            lemma_pre_func(ts, p, e);
            assert(prefix_spec(ts, p) == crate::parser::func_spec(ts, p));
        },
        ExprV::Call(f, args) => {
            let lp = t1(Type::Lparen, "("@);
            let rp = t1(Type::Rparen, ")"@);
            let ft = expr_toks(*f);
            let rest = lp + args_toks(args) + rp;
            assert(expr_toks(e) =~= ft + rest);
            lemma_toks_split(ts, p, ft, rest);
            lemma_tok_at(ts, p + ft.len(), rest, 0);
            lemma_pre(ts, p, *f);
        },
        _ => {},
    }
}

#[verifier::rlimit(100)]
#[verifier::spinoff_prover]
proof fn lemma_pre_prefix(ts: Seq<(Type, Seq<char>)>, p: int, e: ExprV)
    requires
        e is Prefix,
        wf_expr(e),
        toks_at(ts, p, expr_toks(e)),
        kind_at(ts, p + expr_toks(e).len()) != Type::Else,
    ensures
        crate::parser::grouped_spec(ts, p) == (
            Some(e),
            p + expr_toks(e).len() - 1,
            Seq::<crate::parser::ParseErrorV>::empty(),
        ),
    decreases e, 1int,
{
    lemma_toks_bounds(ts, p, expr_toks(e));
    let none = Seq::<crate::parser::ParseErrorV>::empty();
    assert(none + none =~= none);
    let lp = t1(Type::Lparen, "("@);
    let rp = t1(Type::Rparen, ")"@);
    match e {
        ExprV::Prefix(op, r) => {
        let o = t1(op_kind(op), op);
        let rt = expr_toks(*r);
        assert(expr_toks(e) =~= lp + o + rt + rp);
        lemma_toks_split(ts, p, lp + o + rt, rp);
        lemma_toks_split(ts, p, lp + o, rt);
        lemma_tok_at(ts, p, lp + o, 0);
        lemma_tok_at(ts, p, lp + o, 1);
        lemma_tok_at(ts, p + 2 + rt.len(), rp, 0);
        lemma_expr(ts, p + 2, PREFIX, *r);
        let q = p + 1 + rt.len();
        assert(prefix_spec(ts, p + 1) == (Some(e), q, none));
        assert(infix_spec(ts, q, LOWEST, e) == (Some(e), q, none));
        assert(expr_spec(ts, p + 1, LOWEST) == (Some(e), q, none));
        },
        _ => {},
    }
}

#[verifier::rlimit(100)]
#[verifier::spinoff_prover]
proof fn lemma_pre_infix(ts: Seq<(Type, Seq<char>)>, p: int, e: ExprV)
    requires
        e is Infix,
        wf_expr(e),
        toks_at(ts, p, expr_toks(e)),
        kind_at(ts, p + expr_toks(e).len()) != Type::Else,
    ensures
        crate::parser::grouped_spec(ts, p) == (
            Some(e),
            p + expr_toks(e).len() - 1,
            Seq::<crate::parser::ParseErrorV>::empty(),
        ),
    decreases e, 1int,
{
    lemma_toks_bounds(ts, p, expr_toks(e));
    let none = Seq::<crate::parser::ParseErrorV>::empty();
    assert(none + none =~= none);
    let lp = t1(Type::Lparen, "("@);
    let rp = t1(Type::Rparen, ")"@);
    match e {
        ExprV::Infix(l, op, r) => {
        let o = t1(op_kind(op), op);
        let lt = expr_toks(*l);
        let rt = expr_toks(*r);
        assert(expr_toks(e) =~= lp + lt + o + rt + rp);
        lemma_toks_split(ts, p, lp + lt + o + rt, rp);
        lemma_toks_split(ts, p, lp + lt + o, rt);
        lemma_toks_split(ts, p, lp + lt, o);
        lemma_toks_split(ts, p, lp, lt);
        lemma_tok_at(ts, p, lp, 0);
        lemma_tok_at(ts, p + 1 + lt.len(), o, 0);
        lemma_tok_at(ts, p + 2 + lt.len() + rt.len(), rp, 0);
        lemma_expr_first(*l);
        lemma_pre(ts, p + 1, *l);
        lemma_calls(ts, p + 1, LOWEST, *l);
        let pk = op_kind(op);
        lemma_expr(ts, p + 2 + lt.len(), prec_of(pk), *r);
        let ql = p + lt.len();
        let qr = p + 1 + lt.len() + rt.len();
        assert(infix_spec(ts, qr, LOWEST, e) == (Some(e), qr, none));
        assert(infix_spec(ts, ql, LOWEST, *l) == (Some(e), qr, none));
        assert(expr_spec(ts, p + 1, LOWEST) == (Some(e), qr, none));
        },
        _ => {},
    }
}

proof fn lemma_if_cond(ts: Seq<(Type, Seq<char>)>, p: int, c: ExprV)
    requires
        wf_expr(c),
        toks_at(
            ts,
            p,
            t1(Type::If, "if"@) + t1(Type::Lparen, "("@) + expr_toks(c) + t1(Type::Rparen, ")"@),
        ),
    ensures
        kind_at(ts, p + 1) == Type::Lparen,
        expr_spec(ts, p + 2, LOWEST) == (
            Some(c),
            p + 1 + expr_toks(c).len(),
            Seq::<crate::parser::ParseErrorV>::empty(),
        ),
        kind_at(ts, p + 2 + expr_toks(c).len()) == Type::Rparen,
        p + 3 + expr_toks(c).len() <= ts.len(),
    decreases c, 4int,
{
    let it = t1(Type::If, "if"@);
    let lp = t1(Type::Lparen, "("@);
    let rp = t1(Type::Rparen, ")"@);
    let ct = expr_toks(c);
    lemma_toks_split(ts, p, it + lp + ct, rp);
    lemma_toks_split(ts, p, it + lp, ct);
    lemma_tok_at(ts, p, it + lp, 1);
    lemma_tok_at(ts, p + 2 + ct.len(), rp, 0);
    lemma_expr(ts, p + 2, LOWEST, c);
}

#[verifier::rlimit(100)]
#[verifier::spinoff_prover]
proof fn lemma_if_parts(ts: Seq<(Type, Seq<char>)>, p: int, e: ExprV)
    requires
        e is If,
        wf_expr(e),
        toks_at(ts, p, expr_toks(e)),
        kind_at(ts, p + expr_toks(e).len()) != Type::Else,
    ensures
        match e {
            ExprV::If(c, cons, alt) => {
                let none = Seq::<crate::parser::ParseErrorV>::empty();
                let q = p + 1 + expr_toks(*c).len();
                let q3 = q + 3 + stmts_toks(cons).len();
                &&& kind_at(ts, p + 1) == Type::Lparen
                &&& expr_spec(ts, p + 2, LOWEST) == (Some(*c), q, none)
                &&& kind_at(ts, q + 1) == Type::Rparen
                &&& kind_at(ts, q + 2) == Type::Lbrace
                &&& block_spec(ts, q + 2) == (Some(cons), q3, none)
                &&& p + 2 <= q
                &&& q + 2 <= q3
                &&& q3 + 1 < ts.len() + 1
                &&& match alt {
                    Some(a) => {
                        &&& kind_at(ts, q3 + 1) == Type::Else
                        &&& kind_at(ts, q3 + 2) == Type::Lbrace
                        &&& block_spec(ts, q3 + 2) == (Some(a), p + expr_toks(e).len() - 1, none)
                    },
                    None => {
                        &&& q3 == p + expr_toks(e).len() - 1
                        &&& kind_at(ts, q3 + 1) != Type::Else
                    },
                }
            },
            _ => true,
        },
    decreases e, 0int,
{
    lemma_toks_bounds(ts, p, expr_toks(e));
    let lp = t1(Type::Lparen, "("@);
    let rp = t1(Type::Rparen, ")"@);
    let lb = t1(Type::Lbrace, "{"@);
    let rb = t1(Type::Rbrace, "}"@);
    match e {
        ExprV::If(c, cons, alt) => {
            let it = t1(Type::If, "if"@);
            let ct = expr_toks(*c);
            let st = stmts_toks(cons);
            let tail = match alt {
                Some(a) => t1(Type::Else, "else"@) + lb + stmts_toks(a) + rb,
                None => Seq::empty(),
            };
            assert(expr_toks(e) =~= it + lp + ct + rp + (lb + st + rb) + tail);
            lemma_toks_split(ts, p, it + lp + ct + rp + (lb + st + rb), tail);
            lemma_toks_split(ts, p, it + lp + ct + rp, lb + st + rb);
            lemma_if_cond(ts, p, *c);
            lemma_tok_at(ts, p + 3 + ct.len(), lb + st + rb, 0);
            let q = p + 1 + ct.len();
            lemma_block(ts, q + 2, cons);
            let q3 = q + 3 + st.len();
            match alt {
                Some(a) => {
                    let at = stmts_toks(a);
                    let el = t1(Type::Else, "else"@);
                    assert(tail =~= el + (lb + at + rb));
                    lemma_if_alt(ts, q3, a);
                },
                None => {
                    assert(tail.len() == 0);
                },
            }
        },
        _ => {},
    }
}

#[verifier::rlimit(100)]
#[verifier::spinoff_prover]
proof fn lemma_pre_if(ts: Seq<(Type, Seq<char>)>, p: int, e: ExprV)
    requires
        e is If,
        wf_expr(e),
        toks_at(ts, p, expr_toks(e)),
        kind_at(ts, p + expr_toks(e).len()) != Type::Else,
    ensures
        crate::parser::if_spec(ts, p) == (
            Some(e),
            p + expr_toks(e).len() - 1,
            Seq::<crate::parser::ParseErrorV>::empty(),
        ),
    decreases e, 1int,
{
    lemma_toks_bounds(ts, p, expr_toks(e));
    lemma_if_parts(ts, p, e);
    let none = Seq::<crate::parser::ParseErrorV>::empty();
    assert(none + none =~= none);
    assert(none + none + none =~= none);
    match e {
        ExprV::If(c, cons, alt) => {
            let q = p + 1 + expr_toks(*c).len();
            let q3 = q + 3 + stmts_toks(cons).len();
            assert(within(ts, p + 2, q));
            assert(within(ts, q + 2, q3));
        },
        _ => {},
    }
}

#[verifier::rlimit(100)]
#[verifier::spinoff_prover]
proof fn lemma_pre_func(ts: Seq<(Type, Seq<char>)>, p: int, e: ExprV)
    requires
        e is Func,
        wf_expr(e),
        toks_at(ts, p, expr_toks(e)),
        kind_at(ts, p + expr_toks(e).len()) != Type::Else,
    ensures
        crate::parser::func_spec(ts, p) == (
            Some(e),
            p + expr_toks(e).len() - 1,
            Seq::<crate::parser::ParseErrorV>::empty(),
        ),
    decreases e, 1int,
{
    lemma_toks_bounds(ts, p, expr_toks(e));
    let none = Seq::<crate::parser::ParseErrorV>::empty();
    assert(none + none =~= none);
    let lp = t1(Type::Lparen, "("@);
    let rp = t1(Type::Rparen, ")"@);
    let lb = t1(Type::Lbrace, "{"@);
    let rb = t1(Type::Rbrace, "}"@);
    match e {
        ExprV::Func(ps, body) => {
        let ft = t1(Type::Function, "fn"@);
        let nt = names_toks(ps);
        let st = stmts_toks(body);
        assert(expr_toks(e) =~= ft + lp + (nt + rp) + (lb + st + rb));
        lemma_toks_split(ts, p, ft + lp + (nt + rp), lb + st + rb);
        lemma_toks_split(ts, p, ft + lp, nt + rp);
        lemma_tok_at(ts, p, ft + lp, 0);
        lemma_tok_at(ts, p, ft + lp, 1);
        lemma_params(ts, p + 2, ps);
        let q = p + 2 + nt.len();
        lemma_tok_at(ts, q + 1, lb + st + rb, 0);
        lemma_block(ts, q + 1, body);
        },
        _ => {},
    }
}

proof fn lemma_calls(ts: Seq<(Type, Seq<char>)>, p: int, prec: u8, e: ExprV)
    requires
        wf_expr(e),
        toks_at(ts, p, expr_toks(e)),
        prec < CALL,
    ensures
        infix_spec(ts, p + expr_toks(head(e)).len() - 1, prec, head(e)) == infix_spec(
            ts,
            p + expr_toks(e).len() - 1,
            prec,
            e,
        ),
    decreases e, 2int,
{
    lemma_toks_bounds(ts, p, expr_toks(e));
    lemma_expr_first(e);
    match e {
        ExprV::Call(f, args) => {
            let lp = t1(Type::Lparen, "("@);
            let rp = t1(Type::Rparen, ")"@);
            let ft = expr_toks(*f);
            let at = args_toks(args);
            assert(expr_toks(e) =~= ft + (lp + (at + rp)));
            lemma_toks_split(ts, p, ft, lp + (at + rp));
            lemma_toks_split(ts, p + ft.len(), lp, at + rp);
            lemma_tok_at(ts, p + ft.len(), lp, 0);
            lemma_expr_first(*f);
            lemma_calls(ts, p, prec, *f);
            lemma_args(ts, p + ft.len() + 1, args);
            let q = p + ft.len() - 1;
            let q2 = p + ft.len() + 1 + at.len();
            let r3 = infix_spec(ts, q2, prec, e);
            assert(Seq::<crate::parser::ParseErrorV>::empty() + r3.2 =~= r3.2);
            assert(adv(ts, q + 1) == q + 2);
            assert(infix_spec(ts, q, prec, *f) == r3);
        },
        _ => {},
    }
}

proof fn lemma_args(ts: Seq<(Type, Seq<char>)>, p: int, es: Seq<ExprV>)
    requires
        wf_args(es),
        toks_at(ts, p, args_toks(es) + t1(Type::Rparen, ")"@)),
    ensures
        args_spec(ts, p) == (
            Some(es),
            p + args_toks(es).len(),
            Seq::<crate::parser::ParseErrorV>::empty(),
        ),
    decreases es, 0int,
{
    lemma_toks_bounds(ts, p, args_toks(es) + t1(Type::Rparen, ")"@));
    let none = Seq::<crate::parser::ParseErrorV>::empty();
    assert(none + none =~= none);
    let rp = t1(Type::Rparen, ")"@);
    let at = args_toks(es);
    lemma_toks_split(ts, p, at, rp);
    lemma_tok_at(ts, p + at.len(), rp, 0);
    if es.len() == 0 {
        lemma_tok_at(ts, p, at + rp, 0);
        assert(es =~= Seq::<ExprV>::empty());
    } else {
        let e0 = es[0];
        let rest = es.subrange(1, es.len() as int);
        let et = expr_toks(e0);
        lemma_expr_first(e0);
        if es.len() == 1 {
            assert(at == et);
            lemma_tok_at(ts, p, et, 0);
            lemma_expr(ts, p, LOWEST, e0);
            assert(rest =~= Seq::<ExprV>::empty());
            lemma_args(ts, p + et.len(), rest);
            assert(seq![e0] + rest =~= es);
        } else {
            let cm = t1(Type::Comma, ","@);
            assert(at + rp =~= et + (cm + (args_toks(rest) + rp)));
            lemma_toks_split(ts, p, et, cm + (args_toks(rest) + rp));
            lemma_toks_split(ts, p + et.len(), cm, args_toks(rest) + rp);
            lemma_tok_at(ts, p, et, 0);
            lemma_tok_at(ts, p + et.len(), cm, 0);
            lemma_expr(ts, p, LOWEST, e0);
            lemma_args(ts, p + et.len() + 1, rest);
            assert(seq![e0] + rest =~= es);
        }
    }
}

proof fn lemma_block(ts: Seq<(Type, Seq<char>)>, p: int, ss: Seq<StmtV>)
    requires
        wf_stmts(ss),
        toks_at(ts, p, t1(Type::Lbrace, "{"@) + stmts_toks(ss) + t1(Type::Rbrace, "}"@)),
    ensures
        block_spec(ts, p) == (
            Some(ss),
            p + 1 + stmts_toks(ss).len(),
            Seq::<crate::parser::ParseErrorV>::empty(),
        ),
    decreases ss, 1int,
{
    lemma_toks_bounds(ts, p, t1(Type::Lbrace, "{"@) + stmts_toks(ss) + t1(Type::Rbrace, "}"@));
    let lb = t1(Type::Lbrace, "{"@);
    let rb = t1(Type::Rbrace, "}"@);
    let st = stmts_toks(ss);
    lemma_toks_split(ts, p, lb + st, rb);
    lemma_toks_split(ts, p, lb, st);
    lemma_tok_at(ts, p + 1 + st.len(), rb, 0);
    lemma_items(ts, p + 1, ss, true);
}

proof fn lemma_if_alt(ts: Seq<(Type, Seq<char>)>, q3: int, a: Seq<StmtV>)
    requires
        wf_stmts(a),
        toks_at(
            ts,
            q3 + 1,
            t1(Type::Else, "else"@) + (t1(Type::Lbrace, "{"@) + stmts_toks(a) + t1(Type::Rbrace, "}"@)),
        ),
    ensures
        kind_at(ts, q3 + 1) == Type::Else,
        kind_at(ts, q3 + 2) == Type::Lbrace,
        block_spec(ts, q3 + 2) == (
            Some(a),
            q3 + 3 + stmts_toks(a).len(),
            Seq::<crate::parser::ParseErrorV>::empty(),
        ),
    decreases a, 2int,
{
    let lb = t1(Type::Lbrace, "{"@);
    let rb = t1(Type::Rbrace, "}"@);
    let at = stmts_toks(a);
    let el = t1(Type::Else, "else"@);
    lemma_toks_split(ts, q3 + 1, el, lb + at + rb);
    lemma_tok_at(ts, q3 + 1, el, 0);
    lemma_tok_at(ts, q3 + 2, lb + at + rb, 0);
    lemma_block(ts, q3 + 2, a);
}

proof fn lemma_items_cons(ts: Seq<(Type, Seq<char>)>, p: int, ss: Seq<StmtV>, in_block: bool, q: int, end: int)
    requires
        0 <= p <= q < ts.len(),
        ss.len() > 0,
        kind_at(ts, p) != Type::Eof,
        kind_at(ts, p) != Type::Rbrace,
        stmt_spec(ts, p) == (Some(ss[0]), q, Seq::<crate::parser::ParseErrorV>::empty()),
        items_spec(ts, q + 1, in_block) == (
            ss.subrange(1, ss.len() as int),
            end,
            Seq::<crate::parser::ParseErrorV>::empty(),
        ),
    ensures
        items_spec(ts, p, in_block) == (ss, end, Seq::<crate::parser::ParseErrorV>::empty()),
{
    let none = Seq::<crate::parser::ParseErrorV>::empty();
    assert(none + none =~= none);
    assert(adv(ts, q) == q + 1);
    assert(seq![ss[0]] + ss.subrange(1, ss.len() as int) =~= ss);
}

#[verifier::rlimit(100)]
#[verifier::spinoff_prover]
proof fn lemma_items(ts: Seq<(Type, Seq<char>)>, p: int, ss: Seq<StmtV>, in_block: bool)
    requires
        wf_stmts(ss),
        toks_at(ts, p, stmts_toks(ss)),
        kind_at(ts, p + stmts_toks(ss).len()) == if in_block {
            Type::Rbrace
        } else {
            Type::Eof
        },
    ensures
        items_spec(ts, p, in_block) == (
            ss,
            p + stmts_toks(ss).len(),
            Seq::<crate::parser::ParseErrorV>::empty(),
        ),
    decreases ss, 0int,
{
    lemma_toks_bounds(ts, p, stmts_toks(ss));
    let none = Seq::<crate::parser::ParseErrorV>::empty();
    assert(none + none =~= none);
    if ss.len() == 0 {
        assert(ss =~= Seq::<StmtV>::empty());
    } else {
        let s0 = ss[0];
        let rest = ss.subrange(1, ss.len() as int);
        let t0 = stmt_toks(s0);
        lemma_toks_split(ts, p, t0, stmts_toks(rest));
        lemma_stmt_first(s0);
        lemma_tok_at(ts, p, t0, 0);
        lemma_stmt(ts, p, s0);
        lemma_items(ts, p + t0.len(), rest, in_block);
        let q = p + t0.len() - 1;
        lemma_items_cons(ts, p, ss, in_block, q, p + stmts_toks(ss).len());
    }
}

proof fn lemma_stmt_first(s: StmtV)
    requires
        wf_stmt(s),
    ensures
        stmt_toks(s).len() >= 1,
        stmt_toks(s)[0].0 != Type::Eof,
        stmt_toks(s)[0].0 != Type::Rbrace,
{
    match s {
        StmtV::Expr(e) => lemma_expr_first(e),
        _ => {},
    }
}

proof fn lemma_stmt(ts: Seq<(Type, Seq<char>)>, p: int, s: StmtV)
    requires
        wf_stmt(s),
        toks_at(ts, p, stmt_toks(s)),
    ensures
        stmt_spec(ts, p) == (
            Some(s),
            p + stmt_toks(s).len() - 1,
            Seq::<crate::parser::ParseErrorV>::empty(),
        ),
    decreases s, 1int,
{
    lemma_stmt_first(s);
    lemma_tok_at(ts, p, stmt_toks(s), 0);
    match s {
        StmtV::Let(_, _) => {
            lemma_stmt_let(ts, p, s);
            assert(stmt_spec(ts, p) == crate::parser::let_spec(ts, p));
        },
        StmtV::Return(_) => {
            lemma_stmt_return(ts, p, s);
            assert(stmt_spec(ts, p) == crate::parser::return_spec(ts, p));
        },
        StmtV::Expr(e) => {
            lemma_stmt_expr(ts, p, s);
            lemma_expr_first(e);
            assert(stmt_toks(s)[0] == expr_toks(e)[0]);
            assert(stmt_spec(ts, p) == crate::parser::expr_stmt_spec(ts, p));
        },
        StmtV::Block(_) => {},
    }
}

#[verifier::rlimit(100)]
#[verifier::spinoff_prover]
proof fn lemma_stmt_let(ts: Seq<(Type, Seq<char>)>, p: int, s: StmtV)
    requires
        s is Let,
        wf_stmt(s),
        toks_at(ts, p, stmt_toks(s)),
    ensures
        crate::parser::let_spec(ts, p) == (
            Some(s),
            p + stmt_toks(s).len() - 1,
            Seq::<crate::parser::ParseErrorV>::empty(),
        ),
    decreases s, 0int,
{
    lemma_toks_bounds(ts, p, stmt_toks(s));
    let sc = t1(Type::Semicolon, ";"@);
    match s {
        StmtV::Let(n, v) => {
            let hd = t1(Type::Let, "let"@) + t1(Type::Ident, n) + t1(Type::Assign, "="@);
            let vt = expr_toks(v);
            assert(stmt_toks(s) =~= hd + vt + sc);
            lemma_toks_split(ts, p, hd + vt, sc);
            lemma_toks_split(ts, p, hd, vt);
            lemma_tok_at(ts, p, hd, 0);
            lemma_tok_at(ts, p, hd, 1);
            lemma_tok_at(ts, p, hd, 2);
            lemma_tok_at(ts, p + 3 + vt.len(), sc, 0);
            lemma_expr(ts, p + 3, LOWEST, v);
            let q = p + 2 + vt.len();
            assert(kind_at(ts, q + 1) == Type::Semicolon);
            assert(text_at(ts, p + 1) == n);
            assert(crate::parser::let_spec(ts, p) == (
                Some(s),
                q + 1,
                Seq::<crate::parser::ParseErrorV>::empty(),
            ));
        },
        _ => {},
    }
}

#[verifier::rlimit(100)]
#[verifier::spinoff_prover]
proof fn lemma_stmt_return(ts: Seq<(Type, Seq<char>)>, p: int, s: StmtV)
    requires
        s is Return,
        wf_stmt(s),
        toks_at(ts, p, stmt_toks(s)),
    ensures
        crate::parser::return_spec(ts, p) == (
            Some(s),
            p + stmt_toks(s).len() - 1,
            Seq::<crate::parser::ParseErrorV>::empty(),
        ),
    decreases s, 0int,
{
    lemma_toks_bounds(ts, p, stmt_toks(s));
    let sc = t1(Type::Semicolon, ";"@);
    match s {
        StmtV::Return(v) => {
            let hd = t1(Type::Return, "return"@);
            let vt = expr_toks(v);
            assert(stmt_toks(s) =~= hd + vt + sc);
            lemma_toks_split(ts, p, hd + vt, sc);
            lemma_toks_split(ts, p, hd, vt);
            lemma_tok_at(ts, p, hd, 0);
            lemma_tok_at(ts, p + 1 + vt.len(), sc, 0);
            lemma_expr(ts, p + 1, LOWEST, v);
        },
        _ => {},
    }
}

#[verifier::rlimit(100)]
#[verifier::spinoff_prover]
proof fn lemma_stmt_expr(ts: Seq<(Type, Seq<char>)>, p: int, s: StmtV)
    requires
        s is Expr,
        wf_stmt(s),
        toks_at(ts, p, stmt_toks(s)),
    ensures
        crate::parser::expr_stmt_spec(ts, p) == (
            Some(s),
            p + stmt_toks(s).len() - 1,
            Seq::<crate::parser::ParseErrorV>::empty(),
        ),
    decreases s, 0int,
{
    lemma_toks_bounds(ts, p, stmt_toks(s));
    let sc = t1(Type::Semicolon, ";"@);
    match s {
        StmtV::Expr(e) => {
            let et = expr_toks(e);
            lemma_toks_split(ts, p, et, sc);
            lemma_expr_first(e);
            lemma_tok_at(ts, p, et, 0);
            lemma_tok_at(ts, p + et.len(), sc, 0);
            lemma_expr(ts, p, LOWEST, e);
            let q = p + et.len() - 1;
            assert(kind_at(ts, q + 1) == Type::Semicolon);
            assert(crate::parser::expr_stmt_spec(ts, p) == (
                Some(s),
                q + 1,
                Seq::<crate::parser::ParseErrorV>::empty(),
            ));
        },
        _ => {},
    }
}

/// Parsing the tokens of a well-formed program's rendering (`stmts_toks`),
/// followed by the end of input, gives back that program, with no error.
pub proof fn lemma_parse_rendered(ts: Seq<(Type, Seq<char>)>, prog: Seq<StmtV>)
    requires
        wf_stmts(prog),
        ts == stmts_toks(prog).push((Type::Eof, Seq::<char>::empty())),
    ensures
        items_spec(ts, 0, false) == (
            prog,
            stmts_toks(prog).len() as int,
            Seq::<crate::parser::ParseErrorV>::empty(),
        ),
{
    let st = stmts_toks(prog);
    assert(ts.len() == st.len() + 1);
    assert forall|i: int| 0 <= i < st.len() implies ts[0 + i] == #[trigger] st[i] by {
        assert(ts[i] == st[i]);
    }
    assert(ts[st.len() as int] == (Type::Eof, Seq::<char>::empty()));
    lemma_items(ts, 0, prog, false);
}

} // verus!
