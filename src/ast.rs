use vstd::prelude::*;
use vstd::string::StringExecFns;
use crate::token::Token;

verus! {

/// Any node of a syntax tree.
#[derive(Debug)]
pub enum Node {
    Program(Program),
    Stmt(Stmt),
    Expr(Expr),
}

#[derive(Debug)]
pub enum Stmt {
    Let(Let),
    Return(Return),
    ExprStmt(ExprStmt),
    Block(Block),
}

#[derive(Debug)]
pub enum Expr {
    Ident(Ident),
    Int(Int),
    Prefix(Prefix),
    Infix(Infix),
    Boolean(Boolean),
    If(If),
    Func(Func),
    Call(Call),
}

/// A whole program: its statements in source order.
#[derive(Debug)]
pub struct Program {
    pub stmts: Vec<Stmt>,
}

/// `let name = val;`
#[derive(Debug)]
pub struct Let {
    pub token: Token,
    pub name: Ident,
    pub val: Expr,
}

/// `return val;`
#[derive(Debug)]
pub struct Return {
    pub token: Token,
    pub val: Expr,
}

/// An expression used as a statement; `token` is its first token.
#[derive(Debug)]
pub struct ExprStmt {
    pub token: Token,
    pub expr: Expr,
}

/// `{ stmts }`
#[derive(Debug)]
pub struct Block {
    pub token: Token,
    pub stmts: Vec<Stmt>,
}

#[derive(Debug)]
pub struct Ident {
    pub token: Token,
    pub val: String,
}

#[derive(Debug)]
pub struct Int {
    pub token: Token,
    pub val: i64,
}

/// `op rhs`, where `op` is `!` or `-`.
#[derive(Debug)]
pub struct Prefix {
    pub token: Token,
    pub op: String,
    pub rhs: Box<Expr>,
}

/// `lhs op rhs`
#[derive(Debug)]
pub struct Infix {
    pub token: Token,
    pub lhs: Box<Expr>,
    pub op: String,
    pub rhs: Box<Expr>,
}

#[derive(Debug)]
pub struct Boolean {
    pub token: Token,
    pub val: bool,
}

/// `if (cond) { cons } else { alt }`, the `else` part optional.
#[derive(Debug)]
pub struct If {
    pub token: Token,
    pub cond: Box<Expr>,
    pub cons: Block,
    pub alt: Option<Block>,
}

/// `fn(params) { body }`
#[derive(Debug)]
pub struct Func {
    pub token: Token,
    pub params: Vec<Ident>,
    pub body: Block,
}

/// `func(args)`
#[derive(Debug)]
pub struct Call {
    pub token: Token,
    pub func: Box<Expr>,
    pub args: Vec<Expr>,
}

/// The meaning of an expression: the tree without its tokens.
pub enum ExprV {
    Ident(Seq<char>),
    Int(int),
    Boolean(bool),
    Prefix(Seq<char>, Box<ExprV>),
    Infix(Box<ExprV>, Seq<char>, Box<ExprV>),
    If(Box<ExprV>, Seq<StmtV>, Option<Seq<StmtV>>),
    Func(Seq<Seq<char>>, Seq<StmtV>),
    Call(Box<ExprV>, Seq<ExprV>),
}

/// The meaning of a statement: the tree without its tokens.
pub enum StmtV {
    Let(Seq<char>, ExprV),
    Return(ExprV),
    Expr(ExprV),
    Block(Seq<StmtV>),
}

pub open spec fn names_view(ps: Seq<Ident>) -> Seq<Seq<char>> {
    ps.map_values(|p: Ident| p.val@)
}

pub open spec fn expr_view(e: Expr) -> ExprV
    decreases e,
{
    match e {
        Expr::Ident(i) => ExprV::Ident(i.val@),
        Expr::Int(n) => ExprV::Int(n.val as int),
        Expr::Boolean(b) => ExprV::Boolean(b.val),
        Expr::Prefix(p) => ExprV::Prefix(p.op@, Box::new(expr_view(*p.rhs))),
        Expr::Infix(i) => ExprV::Infix(
            Box::new(expr_view(*i.lhs)),
            i.op@,
            Box::new(expr_view(*i.rhs)),
        ),
        Expr::If(i) => ExprV::If(
            Box::new(expr_view(*i.cond)),
            stmts_view(i.cons.stmts@),
            match i.alt {
                Some(a) => Some(stmts_view(a.stmts@)),
                None => None,
            },
        ),
        Expr::Func(f) => ExprV::Func(names_view(f.params@), stmts_view(f.body.stmts@)),
        Expr::Call(c) => ExprV::Call(Box::new(expr_view(*c.func)), exprs_view(c.args@)),
    }
}

pub open spec fn exprs_view(es: Seq<Expr>) -> Seq<ExprV>
    decreases es,
{
    if es.len() == 0 {
        Seq::empty()
    } else {
        exprs_view(es.subrange(0, es.len() - 1)).push(expr_view(es[es.len() - 1]))
    }
}

pub open spec fn stmt_view(s: Stmt) -> StmtV
    decreases s,
{
    match s {
        Stmt::Let(l) => StmtV::Let(l.name.val@, expr_view(l.val)),
        Stmt::Return(r) => StmtV::Return(expr_view(r.val)),
        Stmt::ExprStmt(es) => StmtV::Expr(expr_view(es.expr)),
        Stmt::Block(b) => StmtV::Block(stmts_view(b.stmts@)),
    }
}

pub open spec fn stmts_view(ss: Seq<Stmt>) -> Seq<StmtV>
    decreases ss,
{
    if ss.len() == 0 {
        Seq::empty()
    } else {
        stmts_view(ss.subrange(0, ss.len() - 1)).push(stmt_view(ss[ss.len() - 1]))
    }
}

pub proof fn lemma_exprs_view(es: Seq<Expr>)
    ensures
        exprs_view(es).len() == es.len(),
        forall|i: int| 0 <= i < es.len() ==> #[trigger] exprs_view(es)[i] == expr_view(es[i]),
    decreases es.len(),
{
    if es.len() > 0 {
        lemma_exprs_view(es.subrange(0, es.len() - 1));
    }
}

pub proof fn lemma_stmts_view(ss: Seq<Stmt>)
    ensures
        stmts_view(ss).len() == ss.len(),
        forall|i: int| 0 <= i < ss.len() ==> #[trigger] stmts_view(ss)[i] == stmt_view(ss[i]),
    decreases ss.len(),
{
    if ss.len() > 0 {
        lemma_stmts_view(ss.subrange(0, ss.len() - 1));
    }
}


pub open spec fn digit_text(d: int) -> Seq<char> {
    if d == 0 {
        "0"@
    } else if d == 1 {
        "1"@
    } else if d == 2 {
        "2"@
    } else if d == 3 {
        "3"@
    } else if d == 4 {
        "4"@
    } else if d == 5 {
        "5"@
    } else if d == 6 {
        "6"@
    } else if d == 7 {
        "7"@
    } else if d == 8 {
        "8"@
    } else {
        "9"@
    }
}

/// The decimal digits of `n`, without leading zeros.
pub open spec fn nat_text(n: nat) -> Seq<char>
    decreases n,
{
    if n < 10 {
        digit_text(n as int)
    } else {
        nat_text(n / 10) + digit_text((n % 10) as int)
    }
}

/// The decimal rendering of `n`, with a leading `-` when it is negative.
pub open spec fn int_text(n: int) -> Seq<char> {
    if n < 0 {
        "-"@ + nat_text((-n) as nat)
    } else {
        nat_text(n as nat)
    }
}

/// Names separated by `", "`.
pub open spec fn names_text(ps: Seq<Seq<char>>) -> Seq<char>
    decreases ps.len(),
{
    if ps.len() == 0 {
        Seq::empty()
    } else if ps.len() == 1 {
        ps[0]
    } else {
        names_text(ps.subrange(0, ps.len() - 1)) + ", "@ + ps[ps.len() - 1]
    }
}

/// The rendering of an expression: every prefix and infix operation is
/// parenthesised, so the text states the tree's shape.
pub open spec fn expr_text(e: ExprV) -> Seq<char>
    decreases e,
{
    match e {
        ExprV::Ident(n) => n,
        ExprV::Int(v) => int_text(v),
        ExprV::Boolean(b) => if b {
            "true"@
        } else {
            "false"@
        },
        ExprV::Prefix(op, r) => "("@ + op + expr_text(*r) + ")"@,
        ExprV::Infix(l, op, r) => "("@ + expr_text(*l) + " "@ + op + " "@ + expr_text(*r) + ")"@,
        ExprV::If(c, cons, alt) => "if ("@ + expr_text(*c) + ") { "@ + stmts_text(cons) + " }"@
            + match alt {
            Some(a) => " else { "@ + stmts_text(a) + " }"@,
            None => Seq::empty(),
        },
        ExprV::Func(ps, body) => "fn("@ + names_text(ps) + ") { "@ + stmts_text(body) + " }"@,
        ExprV::Call(f, args) => expr_text(*f) + "("@ + args_text(args) + ")"@,
    }
}

/// Argument expressions separated by `", "`.
pub open spec fn args_text(es: Seq<ExprV>) -> Seq<char>
    decreases es,
{
    if es.len() == 0 {
        Seq::empty()
    } else if es.len() == 1 {
        expr_text(es[0])
    } else {
        args_text(es.subrange(0, es.len() - 1)) + ", "@ + expr_text(es[es.len() - 1])
    }
}

/// The rendering of a statement on its own.
pub open spec fn stmt_text(s: StmtV) -> Seq<char>
    decreases s,
{
    match s {
        StmtV::Let(n, v) => "let "@ + n + " = "@ + expr_text(v) + ";"@,
        StmtV::Return(v) => "return "@ + expr_text(v) + ";"@,
        StmtV::Expr(e) => expr_text(e),
        StmtV::Block(ss) => "{ "@ + stmts_text(ss) + " }"@,
    }
}

/// Statements rendered in order, separated by a space; an expression
/// statement is closed with `;`, which the other kinds carry already.
pub open spec fn stmts_text(ss: Seq<StmtV>) -> Seq<char>
    decreases ss,
{
    if ss.len() == 0 {
        Seq::empty()
    } else if ss.len() == 1 {
        if ss[0] is Expr {
            stmt_text(ss[0]) + ";"@
        } else {
            stmt_text(ss[0])
        }
    } else {
        stmts_text(ss.subrange(0, ss.len() - 1)) + " "@ + if ss[ss.len() - 1] is Expr {
            stmt_text(ss[ss.len() - 1]) + ";"@
        } else {
            stmt_text(ss[ss.len() - 1])
        }
    }
}

fn digit_str(d: u64) -> (r: &'static str)
    requires
        d < 10,
    ensures
        r@ == digit_text(d as int),
{
    if d == 0 {
        "0"
    } else if d == 1 {
        "1"
    } else if d == 2 {
        "2"
    } else if d == 3 {
        "3"
    } else if d == 4 {
        "4"
    } else if d == 5 {
        "5"
    } else if d == 6 {
        "6"
    } else if d == 7 {
        "7"
    } else if d == 8 {
        "8"
    } else {
        "9"
    }
}

fn render_nat(n: u64) -> (r: String)
    ensures
        r@ == nat_text(n as nat),
    decreases n,
{
    if n < 10 {
        String::from_str(digit_str(n))
    } else {
        let mut r = render_nat(n / 10);
        r.append(digit_str(n % 10));
        r
    }
}

/// The decimal rendering of an integer.
pub fn render_int(n: i64) -> (r: String)
    ensures
        r@ == int_text(n as int),
{
    if n < 0 {
        let m: u64 = if n == i64::MIN {
            9223372036854775808u64
        } else {
            (-n) as u64
        };
        let digits = render_nat(m);
        String::from_str("-").concat(digits.as_str())
    } else {
        render_nat(n as u64)
    }
}

pub fn render_names(ps: &Vec<Ident>) -> (r: String)
    ensures
        r@ == names_text(names_view(ps@)),
{
    let mut r = String::new();
    let mut i: usize = 0;
    while i < ps.len()
        invariant
            i <= ps.len(),
            r@ == names_text(names_view(ps@).subrange(0, i as int)),
        decreases ps.len() - i,
    {
        let ghost before = names_view(ps@).subrange(0, i as int);
        if i > 0 {
            r.append(", ");
        }
        r.append(ps[i].val.as_str());
        i = i + 1;
        proof {
            let now = names_view(ps@).subrange(0, i as int);
            assert(now.subrange(0, now.len() - 1) =~= before);
        }
    }
    proof {
        assert(names_view(ps@).subrange(0, ps.len() as int) =~= names_view(ps@));
    }
    r
}

/// The rendering of statements in a sequence (see `stmts_text`).
pub fn render_stmts(ss: &Vec<Stmt>) -> (r: String)
    ensures
        r@ == stmts_text(stmts_view(ss@)),
    decreases ss,
{
    proof {
        lemma_stmts_view(ss@);
    }
    let mut r = String::new();
    let mut i: usize = 0;
    while i < ss.len()
        invariant
            i <= ss.len(),
            stmts_view(ss@).len() == ss@.len(),
            forall|k: int| 0 <= k < ss.len() ==> #[trigger] stmts_view(ss@)[k] == stmt_view(ss@[k]),
            r@ == stmts_text(stmts_view(ss@).subrange(0, i as int)),
        decreases ss.len() - i,
    {
        let ghost before = stmts_view(ss@).subrange(0, i as int);
        if i > 0 {
            r.append(" ");
        }
        let item = ss[i].render();
        r.append(item.as_str());
        if let Stmt::ExprStmt(_) = &ss[i] {
            r.append(";");
        }
        i = i + 1;
        proof {
            let now = stmts_view(ss@).subrange(0, i as int);
            assert(now.subrange(0, now.len() - 1) =~= before);
        }
    }
    proof {
        assert(stmts_view(ss@).subrange(0, ss.len() as int) =~= stmts_view(ss@));
    }
    r
}

impl Stmt {
    /// The rendering of this statement on its own (see `stmt_text`).
    pub fn render(&self) -> (r: String)
        ensures
            r@ == stmt_text(stmt_view(*self)),
        decreases self,
    {
        match self {
            Stmt::Let(l) => {
                let mut r = String::from_str("let ");
                r.append(l.name.val.as_str());
                r.append(" = ");
                let v = l.val.render();
                r.append(v.as_str());
                r.append(";");
                r
            },
            Stmt::Return(ret) => {
                let mut r = String::from_str("return ");
                let v = ret.val.render();
                r.append(v.as_str());
                r.append(";");
                r
            },
            Stmt::ExprStmt(es) => es.expr.render(),
            Stmt::Block(b) => {
                let mut r = String::from_str("{ ");
                let body = render_stmts(&b.stmts);
                r.append(body.as_str());
                r.append(" }");
                r
            },
        }
    }
}

impl Expr {
    /// The rendering of this expression (see `expr_text`).
    pub fn render(&self) -> (r: String)
        ensures
            r@ == expr_text(expr_view(*self)),
        decreases self,
    {
        match self {
            Expr::Ident(i) => i.val.clone(),
            Expr::Int(n) => render_int(n.val),
            Expr::Boolean(b) => if b.val {
                String::from_str("true")
            } else {
                String::from_str("false")
            },
            Expr::Prefix(p) => {
                let mut r = String::from_str("(");
                r.append(p.op.as_str());
                let rhs = p.rhs.render();
                r.append(rhs.as_str());
                r.append(")");
                r
            },
            Expr::Infix(i) => {
                let mut r = String::from_str("(");
                let lhs = i.lhs.render();
                r.append(lhs.as_str());
                r.append(" ");
                r.append(i.op.as_str());
                r.append(" ");
                let rhs = i.rhs.render();
                r.append(rhs.as_str());
                r.append(")");
                r
            },
            Expr::If(i) => {
                let mut r = String::from_str("if (");
                let cond = i.cond.render();
                r.append(cond.as_str());
                r.append(") { ");
                let cons = render_stmts(&i.cons.stmts);
                r.append(cons.as_str());
                r.append(" }");
                match &i.alt {
                    Some(a) => {
                        r.append(" else { ");
                        let alt = render_stmts(&a.stmts);
                        r.append(alt.as_str());
                        r.append(" }");
                    },
                    None => {},
                }
                r
            },
            Expr::Func(f) => {
                let mut r = String::from_str("fn(");
                let ps = render_names(&f.params);
                r.append(ps.as_str());
                r.append(") { ");
                let body = render_stmts(&f.body.stmts);
                r.append(body.as_str());
                r.append(" }");
                r
            },
            Expr::Call(c) => {
                proof {
                    lemma_exprs_view(c.args@);
                }
                let mut r = c.func.render();
                r.append("(");
                let mut i: usize = 0;
                while i < c.args.len()
                    invariant
                        i <= c.args.len(),
                        *self == Expr::Call(*c),
                        exprs_view(c.args@).len() == c.args@.len(),
                        forall|k: int|
                            0 <= k < c.args.len() ==> #[trigger] exprs_view(c.args@)[k]
                                == expr_view(c.args@[k]),
                        r@ == expr_text(expr_view(*c.func)) + "("@ + args_text(
                            exprs_view(c.args@).subrange(0, i as int),
                        ),
                    decreases c.args.len() - i,
                {
                    let ghost before = exprs_view(c.args@).subrange(0, i as int);
                    if i > 0 {
                        r.append(", ");
                    }
                    proof {
                        vstd::std_specs::vec::axiom_vec_index_decreases(c.args, i as int);
                        assert(decreases_to!(*self => (*self)->Call_0.args));
                    }
                    let a = c.args[i].render();
                    r.append(a.as_str());
                    i = i + 1;
                    proof {
                        let now = exprs_view(c.args@).subrange(0, i as int);
                        assert(now.subrange(0, now.len() - 1) =~= before);
                    }
                }
                proof {
                    assert(exprs_view(c.args@).subrange(0, c.args.len() as int) =~= exprs_view(
                        c.args@,
                    ));
                }
                r.append(")");
                r
            },
        }
    }
}

impl Program {
    /// The rendering of the whole program (see `stmts_text`).
    pub fn render(&self) -> (r: String)
        ensures
            r@ == stmts_text(stmts_view(self.stmts@)),
    {
        render_stmts(&self.stmts)
    }
}


impl Ident {
    /// A copy of this identifier.
    pub fn duplicate(&self) -> (r: Ident)
        ensures
            r == *self,
    {
        Ident { token: self.token.duplicate(), val: self.val.clone() }
    }
}

/// A copy of a parameter list.
pub fn dup_idents(ps: &Vec<Ident>) -> (r: Vec<Ident>)
    ensures
        names_view(r@) == names_view(ps@),
{
    let mut r: Vec<Ident> = Vec::new();
    let mut i: usize = 0;
    while i < ps.len()
        invariant
            i <= ps.len(),
            r@ == ps@.subrange(0, i as int),
        decreases ps.len() - i,
    {
        r.push(ps[i].duplicate());
        i = i + 1;
        proof {
            assert(r@ =~= ps@.subrange(0, i as int));
        }
    }
    proof {
        assert(r@ =~= ps@);
    }
    r
}

/// A copy of a statement list, equal to it in meaning.
pub fn dup_stmts(ss: &Vec<Stmt>) -> (r: Vec<Stmt>)
    ensures
        stmts_view(r@) == stmts_view(ss@),
    decreases ss,
{
    let mut r: Vec<Stmt> = Vec::new();
    let mut i: usize = 0;
    while i < ss.len()
        invariant
            i <= ss.len(),
            stmts_view(r@) == stmts_view(ss@.subrange(0, i as int)),
        decreases ss.len() - i,
    {
        let ghost rb = r@;
        proof {
            vstd::std_specs::vec::axiom_vec_index_decreases(*ss, i as int);
        }
        let s = ss[i].duplicate();
        r.push(s);
        i = i + 1;
        proof {
            assert(r@.subrange(0, r@.len() - 1) =~= rb);
            let t = ss@.subrange(0, i as int);
            assert(t.subrange(0, t.len() - 1) =~= ss@.subrange(0, i - 1));
        }
    }
    proof {
        assert(ss@.subrange(0, ss.len() as int) =~= ss@);
    }
    r
}

/// A copy of an argument list, equal to it in meaning.
pub fn dup_exprs(es: &Vec<Expr>) -> (r: Vec<Expr>)
    ensures
        exprs_view(r@) == exprs_view(es@),
    decreases es,
{
    let mut r: Vec<Expr> = Vec::new();
    let mut i: usize = 0;
    while i < es.len()
        invariant
            i <= es.len(),
            exprs_view(r@) == exprs_view(es@.subrange(0, i as int)),
        decreases es.len() - i,
    {
        let ghost rb = r@;
        proof {
            vstd::std_specs::vec::axiom_vec_index_decreases(*es, i as int);
        }
        let e = es[i].duplicate();
        r.push(e);
        i = i + 1;
        proof {
            assert(r@.subrange(0, r@.len() - 1) =~= rb);
            let t = es@.subrange(0, i as int);
            assert(t.subrange(0, t.len() - 1) =~= es@.subrange(0, i - 1));
        }
    }
    proof {
        assert(es@.subrange(0, es.len() as int) =~= es@);
    }
    r
}

impl Block {
    /// A copy of this block, equal to it in meaning.
    pub fn duplicate(&self) -> (r: Block)
        ensures
            stmts_view(r.stmts@) == stmts_view(self.stmts@),
        decreases self,
    {
        Block { token: self.token.duplicate(), stmts: dup_stmts(&self.stmts) }
    }
}

impl Stmt {
    /// A copy of this statement, equal to it in meaning.
    pub fn duplicate(&self) -> (r: Stmt)
        ensures
            stmt_view(r) == stmt_view(*self),
        decreases self,
    {
        match self {
            Stmt::Let(l) => Stmt::Let(
                Let { token: l.token.duplicate(), name: l.name.duplicate(), val: l.val.duplicate() },
            ),
            Stmt::Return(r) => Stmt::Return(
                Return { token: r.token.duplicate(), val: r.val.duplicate() },
            ),
            Stmt::ExprStmt(es) => Stmt::ExprStmt(
                ExprStmt { token: es.token.duplicate(), expr: es.expr.duplicate() },
            ),
            Stmt::Block(b) => Stmt::Block(b.duplicate()),
        }
    }
}

impl Expr {
    /// A copy of this expression, equal to it in meaning.
    pub fn duplicate(&self) -> (r: Expr)
        ensures
            expr_view(r) == expr_view(*self),
        decreases self,
    {
        match self {
            Expr::Ident(i) => Expr::Ident(i.duplicate()),
            Expr::Int(n) => Expr::Int(Int { token: n.token.duplicate(), val: n.val }),
            Expr::Boolean(b) => Expr::Boolean(Boolean { token: b.token.duplicate(), val: b.val }),
            Expr::Prefix(p) => Expr::Prefix(
                Prefix {
                    token: p.token.duplicate(),
                    op: p.op.clone(),
                    rhs: Box::new(p.rhs.duplicate()),
                },
            ),
            Expr::Infix(i) => Expr::Infix(
                Infix {
                    token: i.token.duplicate(),
                    lhs: Box::new(i.lhs.duplicate()),
                    op: i.op.clone(),
                    rhs: Box::new(i.rhs.duplicate()),
                },
            ),
            Expr::If(i) => {
                let alt = match &i.alt {
                    Some(a) => Some(a.duplicate()),
                    None => None,
                };
                Expr::If(
                    If {
                        token: i.token.duplicate(),
                        cond: Box::new(i.cond.duplicate()),
                        cons: i.cons.duplicate(),
                        alt,
                    },
                )
            },
            Expr::Func(f) => Expr::Func(
                Func {
                    token: f.token.duplicate(),
                    params: dup_idents(&f.params),
                    body: f.body.duplicate(),
                },
            ),
            Expr::Call(c) => Expr::Call(
                Call {
                    token: c.token.duplicate(),
                    func: Box::new(c.func.duplicate()),
                    args: dup_exprs(&c.args),
                },
            ),
        }
    }
}

} // verus!
