use vstd::prelude::*;
use vstd::string::StringExecFns;
use crate::ast::{
    expr_view, exprs_view, lemma_exprs_view, lemma_stmts_view, names_view, stmt_view, stmts_view,
    dup_idents, Call, Expr, ExprV, If, Infix, Node, Prefix, Stmt, StmtV,
};
use crate::env::{bind, lookup, push_frame, scan, Env, Store};
use crate::object::{obj_view, Bool, Func, Int, Null, Object, Return, Value};

verus! {

/// A failure of evaluation. Everything else that goes wrong at run time
/// (an unbound name, an operand of the wrong kind, an unknown operator,
/// calling a value that is not a function, or a closure whose frame is not
/// one of this environment's) yields `null` instead.
#[derive(Debug, Clone, Copy, PartialEq, Eq, Structural)]
pub enum EvalError {
    /// A function was called with a number of arguments other than its
    /// number of parameters.
    ArityMismatch { expected: usize, got: usize },
    /// Integer division by zero.
    DivisionByZero,
    /// Calls were nested deeper than the depth budget the caller passed.
    /// `eval` passes `u64::MAX`, so there the host's stack is the real limit.
    CallDepthExceeded,
}

/// The depth budget `eval` gives to nested calls: as large as the counter
/// allows, so that only the host's stack bounds recursion.
pub const MAX_CALL_DEPTH: u64 = u64::MAX;

/// Whether a value counts as true in a condition: all but `null` and `false`.
pub open spec fn truthy(v: Value) -> bool {
    match v {
        Value::Null => false,
        Value::Bool(b) => b,
        _ => true,
    }
}

/// `!v`: negates a boolean, gives `true` for `null`, `false` for the rest.
pub open spec fn bang_value(v: Value) -> Value {
    match v {
        Value::Bool(b) => Value::Bool(!b),
        Value::Null => Value::Bool(true),
        _ => Value::Bool(false),
    }
}

/// `-v`: negates an integer (wrapping), `null` for the rest.
pub open spec fn minus_value(v: Value) -> Value {
    match v {
        Value::Int(n) => Value::Int((0i64).wrapping_sub(n as i64) as int),
        _ => Value::Null,
    }
}

pub open spec fn prefix_value(op: Seq<char>, v: Value) -> Value {
    if op == "!"@ {
        bang_value(v)
    } else if op == "-"@ {
        minus_value(v)
    } else {
        Value::Null
    }
}

/// The integer an operand stands for: an integer itself, a boolean as 0 or 1.
pub open spec fn operand(v: Value) -> Option<int> {
    match v {
        Value::Int(n) => Some(n),
        Value::Bool(b) => Some(
            if b {
                1
            } else {
                0
            },
        ),
        _ => None,
    }
}

/// Division truncated toward zero; the one quotient that does not fit,
/// `i64::MIN / -1`, wraps to `i64::MIN`.
pub open spec fn div_value(a: int, b: int) -> int {
    match (a as i64).checked_div(b as i64) {
        Some(q) => q as int,
        None => a,
    }
}

/// An infix operator applied to two integers. Arithmetic wraps around on
/// overflow; an unknown operator gives `null`.
pub open spec fn arith(op: Seq<char>, a: int, b: int) -> Result<Value, EvalError> {
    if op == "+"@ {
        Ok(Value::Int((a as i64).wrapping_add(b as i64) as int))
    } else if op == "-"@ {
        Ok(Value::Int((a as i64).wrapping_sub(b as i64) as int))
    } else if op == "*"@ {
        Ok(Value::Int((a as i64).wrapping_mul(b as i64) as int))
    } else if op == "/"@ {
        if b == 0 {
            Err(EvalError::DivisionByZero)
        } else {
            Ok(Value::Int(div_value(a, b)))
        }
    } else if op == "<"@ {
        Ok(Value::Bool(a < b))
    } else if op == ">"@ {
        Ok(Value::Bool(a > b))
    } else if op == "=="@ {
        Ok(Value::Bool(a == b))
    } else if op == "!="@ {
        Ok(Value::Bool(a != b))
    } else {
        Ok(Value::Null)
    }
}

/// An infix operator applied to two values; `null` unless both are
/// integers or booleans.
pub open spec fn infix_value(op: Seq<char>, l: Value, r: Value) -> Result<Value, EvalError> {
    match (operand(l), operand(r)) {
        (Some(a), Some(b)) => arith(op, a, b),
        _ => Ok(Value::Null),
    }
}

/// The value carried by a `return`, taken out at a call or program boundary.
pub open spec fn unwrap_return(r: Result<Value, EvalError>) -> Result<Value, EvalError> {
    match r {
        Ok(Value::Return(v)) => Ok(*v),
        _ => r,
    }
}

/// `st` with each parameter bound, in order, to its argument in frame `f`.
pub open spec fn bind_params(st: Store, f: int, ps: Seq<Seq<char>>, vals: Seq<Value>) -> Store
    decreases ps.len(),
{
    if ps.len() == 0 || vals.len() == 0 {
        st
    } else {
        bind_params(
            bind(st, f, ps[0], vals[0]),
            f,
            ps.subrange(1, ps.len() as int),
            vals.subrange(1, vals.len() as int),
        )
    }
}

/// Evaluating `e` in frame `f` of `st`, with calls allowed to nest `d` deep:
/// the environment after it, and its value or failure. A return signal that
/// comes out of a part (an operand, a condition, the callee or an argument)
/// is passed on at once, unchanged, so that a `return` escapes every
/// enclosing expression and block up to its call or program.
pub open spec fn eval_expr_spec(st: Store, f: nat, e: ExprV, d: nat) -> (
    Store,
    Result<Value, EvalError>,
)
    decreases d, e,
{
    match e {
        ExprV::Ident(n) => (
            st,
            Ok(
                match lookup(st, f as int, n) {
                    Some(v) => v,
                    None => Value::Null,
                },
            ),
        ),
        ExprV::Int(v) => (st, Ok(Value::Int(v))),
        ExprV::Boolean(b) => (st, Ok(Value::Bool(b))),
        ExprV::Prefix(op, r) => {
            let (st1, rv) = eval_expr_spec(st, f, *r, d);
            match rv {
                Ok(v) => if v is Return {
                    (st1, Ok(v))
                } else {
                    (st1, Ok(prefix_value(op, v)))
                },
                Err(x) => (st1, Err(x)),
            }
        },
        ExprV::Infix(l, op, r) => {
            let (st1, lv) = eval_expr_spec(st, f, *l, d);
            match lv {
                Err(x) => (st1, Err(x)),
                Ok(a) => if a is Return {
                    (st1, Ok(a))
                } else {
                    let (st2, rv) = eval_expr_spec(st1, f, *r, d);
                    match rv {
                        Err(x) => (st2, Err(x)),
                        Ok(b) => if b is Return {
                            (st2, Ok(b))
                        } else {
                            (st2, infix_value(op, a, b))
                        },
                    }
                },
            }
        },
        ExprV::If(c, cons, alt) => {
            let (st1, cv) = eval_expr_spec(st, f, *c, d);
            match cv {
                Err(x) => (st1, Err(x)),
                Ok(v) => if v is Return {
                    (st1, Ok(v))
                } else if truthy(v) {
                    eval_seq_spec(st1, f, cons, Value::Null, d)
                } else {
                    match alt {
                        Some(a) => eval_seq_spec(st1, f, a, Value::Null, d),
                        None => (st1, Ok(Value::Null)),
                    }
                },
            }
        },
        ExprV::Func(ps, body) => (st, Ok(Value::Func(ps, body, f))),
        ExprV::Call(callee, args) => {
            let (st1, cv) = eval_expr_spec(st, f, *callee, d);
            match cv {
                Err(x) => (st1, Err(x)),
                Ok(fv) => if fv is Return {
                    (st1, Ok(fv))
                } else {
                    let (st2, av) = eval_args_spec(st1, f, args, d);
                    match av {
                        Err(x) => (st2, Err(x)),
                        Ok(vals) => if vals.len() > 0 && vals[vals.len() - 1] is Return {
                            (st2, Ok(vals[vals.len() - 1]))
                        } else {
                            match fv {
                            Value::Func(ps, body, env) => if ps.len() != vals.len() {
                                (
                                    st2,
                                    Err(
                                        EvalError::ArityMismatch {
                                            expected: ps.len() as usize,
                                            got: vals.len() as usize,
                                        },
                                    ),
                                )
                            } else if d == 0 {
                                (st2, Err(EvalError::CallDepthExceeded))
                            } else if env >= st2.parents.len() {
                                (st2, Ok(Value::Null))
                            } else {
                                let nf = st2.parents.len();
                                let st3 = bind_params(
                                    push_frame(st2, env as int),
                                    nf as int,
                                    ps,
                                    vals,
                                );
                                let (st4, r) = eval_seq_spec(
                                    st3,
                                    nf,
                                    body,
                                    Value::Null,
                                    (d - 1) as nat,
                                );
                                (st4, unwrap_return(r))
                            },
                            _ => (st2, Ok(Value::Null)),
                            }
                        },
                    }
                },
            }
        },
    }
}

/// Evaluating argument expressions left to right. An argument whose value is
/// a return signal ends the list, as its last element.
pub open spec fn eval_args_spec(st: Store, f: nat, es: Seq<ExprV>, d: nat) -> (
    Store,
    Result<Seq<Value>, EvalError>,
)
    decreases d, es,
{
    if es.len() == 0 {
        (st, Ok(Seq::empty()))
    } else {
        let (st1, r) = eval_expr_spec(st, f, es[0], d);
        match r {
            Err(x) => (st1, Err(x)),
            Ok(v) => if v is Return {
                (st1, Ok(seq![v]))
            } else {
                let (st2, rest) = eval_args_spec(st1, f, es.subrange(1, es.len() as int), d);
                match rest {
                    Err(x) => (st2, Err(x)),
                    Ok(vs) => (st2, Ok(seq![v] + vs)),
                }
            },
        }
    }
}

/// Evaluating one statement. A `let` binds in frame `f` and yields the
/// value bound; a `return` yields its value wrapped as a return. A return
/// signal coming out of the expression is passed on as it is: nothing is
/// bound, and it is not wrapped again.
pub open spec fn eval_stmt_spec(st: Store, f: nat, s: StmtV, d: nat) -> (
    Store,
    Result<Value, EvalError>,
)
    decreases d, s,
{
    match s {
        StmtV::Let(n, v) => {
            let (st1, r) = eval_expr_spec(st, f, v, d);
            match r {
                Ok(x) => if x is Return {
                    (st1, Ok(x))
                } else {
                    (bind(st1, f as int, n, x), Ok(x))
                },
                Err(x) => (st1, Err(x)),
            }
        },
        StmtV::Return(v) => {
            let (st1, r) = eval_expr_spec(st, f, v, d);
            match r {
                Ok(x) => if x is Return {
                    (st1, Ok(x))
                } else {
                    (st1, Ok(Value::Return(Box::new(x))))
                },
                Err(x) => (st1, Err(x)),
            }
        },
        StmtV::Expr(e) => eval_expr_spec(st, f, e, d),
        StmtV::Block(ss) => eval_seq_spec(st, f, ss, Value::Null, d),
    }
}

/// Evaluating statements in order: the value of the last one (`last` when
/// there are none), stopping at the first failure or the first return,
/// which is passed on still wrapped.
pub open spec fn eval_seq_spec(st: Store, f: nat, ss: Seq<StmtV>, last: Value, d: nat) -> (
    Store,
    Result<Value, EvalError>,
)
    decreases d, ss,
{
    if ss.len() == 0 {
        (st, Ok(last))
    } else {
        let (st1, r) = eval_stmt_spec(st, f, ss[0], d);
        match r {
            Err(x) => (st1, Err(x)),
            Ok(v) => if v is Return {
                (st1, Ok(v))
            } else {
                eval_seq_spec(st1, f, ss.subrange(1, ss.len() as int), v, d)
            },
        }
    }
}

/// Evaluating a whole program: its statements in order, a return's value
/// taken out.
pub open spec fn eval_program_spec(st: Store, f: nat, ss: Seq<StmtV>, d: nat) -> (
    Store,
    Result<Value, EvalError>,
) {
    let (st1, r) = eval_seq_spec(st, f, ss, Value::Null, d);
    (st1, unwrap_return(r))
}

/// An expression built from integer literals with prefix and infix
/// operators only.
pub open spec fn is_int_expr(e: ExprV) -> bool
    decreases e,
{
    match e {
        ExprV::Int(_) => true,
        ExprV::Prefix(_, r) => is_int_expr(*r),
        ExprV::Infix(l, _, r) => is_int_expr(*l) && is_int_expr(*r),
        _ => false,
    }
}

/// Evaluating an integer expression leaves the environment as it was, and
/// its result depends on the expression alone: not on the environment, the
/// frame, or the call depth allowed.
pub proof fn lemma_int_expr_pure(st1: Store, f1: nat, d1: nat, st2: Store, f2: nat, d2: nat, e: ExprV)
    requires
        is_int_expr(e),
    ensures
        eval_expr_spec(st1, f1, e, d1).0 == st1,
        eval_expr_spec(st1, f1, e, d1).1 == eval_expr_spec(st2, f2, e, d2).1,
    decreases e,
{
    match e {
        ExprV::Prefix(op, r) => {
            lemma_int_expr_pure(st1, f1, d1, st2, f2, d2, *r);
            let a = eval_expr_spec(st1, f1, *r, d1);
            let b = eval_expr_spec(st2, f2, *r, d2);
            assert(a.1 == b.1);
        },
        ExprV::Infix(l, op, r) => {
            lemma_int_expr_pure(st1, f1, d1, st2, f2, d2, *l);
            lemma_int_expr_pure(st1, f1, d1, st2, f2, d2, *r);
            let a = eval_expr_spec(st1, f1, *l, d1);
            let b = eval_expr_spec(st1, f1, *r, d1);
            let b2 = eval_expr_spec(st2, f2, *r, d2);
            let c = eval_expr_spec(st2, f2, *l, d2);
            lemma_int_expr_pure(c.0, f2, d2, st2, f2, d2, *r);
            assert(a.1 == c.1 && b.1 == b2.1);
        },
        ExprV::Int(v) => {
            assert(eval_expr_spec(st2, f2, e, d2).1 == Ok::<Value, EvalError>(Value::Int(v)));
        },
        _ => {},
    }
}


/// An expression that binds nothing and defines no function: literals,
/// names, prefix and infix operations, and conditionals whose branches hold
/// only expression and `return` statements of the same kind.
pub open spec fn is_pure_expr(e: ExprV) -> bool
    decreases e,
{
    match e {
        ExprV::Int(_) => true,
        ExprV::Boolean(_) => true,
        ExprV::Ident(_) => true,
        ExprV::Prefix(_, r) => is_pure_expr(*r),
        ExprV::Infix(l, _, r) => is_pure_expr(*l) && is_pure_expr(*r),
        ExprV::If(c, cons, alt) => is_pure_expr(*c) && is_pure_stmts(cons) && match alt {
            Some(a) => is_pure_stmts(a),
            None => true,
        },
        _ => false,
    }
}

pub open spec fn is_pure_stmts(ss: Seq<StmtV>) -> bool
    decreases ss,
{
    ss.len() == 0 || (match ss[0] {
        StmtV::Expr(e) => is_pure_expr(e),
        StmtV::Return(e) => is_pure_expr(e),
        _ => false,
    } && is_pure_stmts(ss.subrange(1, ss.len() as int)))
}

/// Every name is seen the same from frame `f1` of `st1` as from frame `f2`
/// of `st2`.
pub open spec fn same_names(st1: Store, f1: nat, st2: Store, f2: nat) -> bool {
    forall|n: Seq<char>| #[trigger] lookup(st1, f1 as int, n) == lookup(st2, f2 as int, n)
}

/// Evaluating an expression that binds nothing leaves the environment as
/// it was, and its result depends only on what its names are bound to: two
/// environments that agree on every name give the same result, whatever
/// the call depth allowed.
pub proof fn lemma_pure_expr(st1: Store, f1: nat, d1: nat, st2: Store, f2: nat, d2: nat, e: ExprV)
    requires
        is_pure_expr(e),
        same_names(st1, f1, st2, f2),
    ensures
        eval_expr_spec(st1, f1, e, d1).0 == st1,
        eval_expr_spec(st2, f2, e, d2).0 == st2,
        eval_expr_spec(st1, f1, e, d1).1 == eval_expr_spec(st2, f2, e, d2).1,
    decreases e,
{
    match e {
        ExprV::Ident(n) => {
            assert(lookup(st1, f1 as int, n) == lookup(st2, f2 as int, n));
        },
        ExprV::Prefix(_, r) => {
            lemma_pure_expr(st1, f1, d1, st2, f2, d2, *r);
        },
        ExprV::Infix(l, _, r) => {
            lemma_pure_expr(st1, f1, d1, st2, f2, d2, *l);
            lemma_pure_expr(st1, f1, d1, st2, f2, d2, *r);
        },
        ExprV::If(c, cons, alt) => {
            lemma_pure_expr(st1, f1, d1, st2, f2, d2, *c);
            lemma_pure_seq(st1, f1, d1, st2, f2, d2, cons, Value::Null);
            match alt {
                Some(a) => lemma_pure_seq(st1, f1, d1, st2, f2, d2, a, Value::Null),
                None => {},
            }
        },
        _ => {},
    }
}

/// The statements of a pure conditional branch, as `lemma_pure_expr`.
pub proof fn lemma_pure_seq(
    st1: Store,
    f1: nat,
    d1: nat,
    st2: Store,
    f2: nat,
    d2: nat,
    ss: Seq<StmtV>,
    last: Value,
)
    requires
        is_pure_stmts(ss),
        same_names(st1, f1, st2, f2),
    ensures
        eval_seq_spec(st1, f1, ss, last, d1).0 == st1,
        eval_seq_spec(st2, f2, ss, last, d2).0 == st2,
        eval_seq_spec(st1, f1, ss, last, d1).1 == eval_seq_spec(st2, f2, ss, last, d2).1,
    decreases ss,
{
    if ss.len() > 0 {
        match ss[0] {
            StmtV::Expr(e) => {
                assert(decreases_to!(ss => ss[0]));
                lemma_pure_expr(st1, f1, d1, st2, f2, d2, e);
            },
            StmtV::Return(e) => {
                assert(decreases_to!(ss => ss[0]));
                lemma_pure_expr(st1, f1, d1, st2, f2, d2, e);
            },
            _ => {},
        }
        let a = eval_stmt_spec(st1, f1, ss[0], d1);
        let b = eval_stmt_spec(st2, f2, ss[0], d2);
        assert(a.0 == st1 && b.0 == st2 && a.1 == b.1);
        let r = a.1;
        match r {
            Ok(v) => if !(v is Return) {
                lemma_pure_seq(st1, f1, d1, st2, f2, d2, ss.subrange(1, ss.len() as int), v);
            },
            Err(_) => {},
        }
    }
}

/// A `return` ends a block: when the statements before it finish without a
/// signal and it yields a return signal, the block yields that same signal,
/// still wrapped, in the environment it left, and no later statement runs.
pub proof fn lemma_return_escapes(
    st: Store,
    f: nat,
    pre: Seq<StmtV>,
    s: StmtV,
    post: Seq<StmtV>,
    last: Value,
    d: nat,
)
    requires
        !(last is Return),
        eval_seq_spec(st, f, pre, last, d).1 matches Ok(v) && !(v is Return),
        eval_stmt_spec(eval_seq_spec(st, f, pre, last, d).0, f, s, d).1 matches Ok(r) && r is Return,
    ensures
        eval_seq_spec(st, f, pre + seq![s] + post, last, d) == eval_stmt_spec(
            eval_seq_spec(st, f, pre, last, d).0,
            f,
            s,
            d,
        ),
    decreases pre.len(),
{
    let all = pre + seq![s] + post;
    if pre.len() == 0 {
        assert(all[0] == s);
    } else {
        let (st1, r0) = eval_stmt_spec(st, f, pre[0], d);
        assert(all[0] == pre[0]);
        let v0 = r0->Ok_0;
        let rest = pre.subrange(1, pre.len() as int);
        assert(all.subrange(1, all.len() as int) =~= rest + seq![s] + post);
        lemma_return_escapes(st1, f, rest, s, post, v0, d);
    }
}

/// A call whose callee is a closure and whose arguments are plain values of
/// the right number: the closure's body runs in a new frame whose parent is
/// the frame the closure captured (not the caller's), with each parameter
/// bound to its argument, and a return signal from the body is unwrapped.
pub proof fn lemma_call(
    st: Store,
    f: nat,
    callee: ExprV,
    args: Seq<ExprV>,
    d: nat,
    ps: Seq<Seq<char>>,
    body: Seq<StmtV>,
    env: nat,
)
    requires
        eval_expr_spec(st, f, callee, d).1 == Ok::<Value, EvalError>(Value::Func(ps, body, env)),
        ({
            let st1 = eval_expr_spec(st, f, callee, d).0;
            let (st2, av) = eval_args_spec(st1, f, args, d);
            &&& av matches Ok(vals)
            &&& (vals.len() == 0 || !(vals[vals.len() - 1] is Return))
            &&& ps.len() == vals.len()
            &&& env < st2.parents.len()
        }),
        d > 0,
    ensures
        ({
            let st1 = eval_expr_spec(st, f, callee, d).0;
            let (st2, av) = eval_args_spec(st1, f, args, d);
            let vals = av->Ok_0;
            let nf = st2.parents.len();
            let st3 = bind_params(push_frame(st2, env as int), nf as int, ps, vals);
            let (st4, r) = eval_seq_spec(st3, nf, body, Value::Null, (d - 1) as nat);
            eval_expr_spec(st, f, ExprV::Call(Box::new(callee), args), d) == (st4, unwrap_return(r))
        }),
{
}

/// No binding in `st` holds a return signal.
pub open spec fn no_signal(st: Store) -> bool {
    forall|i: int| 0 <= i < st.binds.len() ==> !((#[trigger] st.binds[i]).2 is Return)
}

/// An outcome that, when it is a return signal, carries a plain value.
pub open spec fn single(r: Result<Value, EvalError>) -> bool {
    match r {
        Ok(Value::Return(b)) => !(*b is Return),
        _ => true,
    }
}

proof fn lemma_scan_plain(bs: Seq<(int, Seq<char>, Value)>, f: int, n: Seq<char>)
    requires
        forall|i: int| 0 <= i < bs.len() ==> !((#[trigger] bs[i]).2 is Return),
    ensures
        scan(bs, f, n) matches Some(v) ==> !(v is Return),
    decreases bs.len(),
{
    if bs.len() > 0 {
        let init = bs.subrange(0, bs.len() - 1);
        assert forall|i: int| 0 <= i < init.len() implies !((#[trigger] init[i]).2 is Return) by {
            assert(init[i] == bs[i]);
        }
        lemma_scan_plain(init, f, n);
    }
}

proof fn lemma_lookup_plain(st: Store, f: int, n: Seq<char>)
    requires
        no_signal(st),
    ensures
        lookup(st, f, n) matches Some(v) ==> !(v is Return),
    decreases f,
{
    lemma_scan_plain(st.binds, f, n);
    if 0 <= f < st.parents.len() && st.parents[f] is Some && 0 <= st.parents[f]->0 < f {
        lemma_lookup_plain(st, st.parents[f]->0, n);
    }
}

proof fn lemma_bind_plain(st: Store, f: int, n: Seq<char>, v: Value)
    requires
        no_signal(st),
        !(v is Return),
    ensures
        no_signal(bind(st, f, n, v)),
{
    let b = bind(st, f, n, v).binds;
    assert forall|i: int| 0 <= i < b.len() implies !((#[trigger] b[i]).2 is Return) by {
        if i < st.binds.len() {
            assert(b[i] == st.binds[i]);
        }
    }
}

proof fn lemma_bind_params_plain(st: Store, f: int, ps: Seq<Seq<char>>, vals: Seq<Value>)
    requires
        no_signal(st),
        forall|k: int| 0 <= k < vals.len() ==> !(#[trigger] vals[k] is Return),
    ensures
        no_signal(bind_params(st, f, ps, vals)),
    decreases ps.len(),
{
    if ps.len() > 0 && vals.len() > 0 {
        lemma_bind_plain(st, f, ps[0], vals[0]);
        let rest = vals.subrange(1, vals.len() as int);
        assert forall|k: int| 0 <= k < rest.len() implies !(#[trigger] rest[k] is Return) by {
            assert(rest[k] == vals[k + 1]);
        }
        lemma_bind_params_plain(
            bind(st, f, ps[0], vals[0]),
            f,
            ps.subrange(1, ps.len() as int),
            rest,
        );
    }
}

/// Evaluating an expression never wraps a return signal twice, and never
/// binds one, when the environment holds none to begin with.
pub proof fn lemma_expr_single(st: Store, f: nat, e: ExprV, d: nat)
    requires
        no_signal(st),
    ensures
        no_signal(eval_expr_spec(st, f, e, d).0),
        single(eval_expr_spec(st, f, e, d).1),
    decreases d, e,
{
    match e {
        ExprV::Ident(n) => {
            lemma_lookup_plain(st, f as int, n);
        },
        ExprV::Prefix(_, r) => {
            lemma_expr_single(st, f, *r, d);
        },
        ExprV::Infix(l, _, r) => {
            lemma_expr_single(st, f, *l, d);
            let st1 = eval_expr_spec(st, f, *l, d).0;
            lemma_expr_single(st1, f, *r, d);
        },
        ExprV::If(c, cons, alt) => {
            lemma_expr_single(st, f, *c, d);
            let st1 = eval_expr_spec(st, f, *c, d).0;
            lemma_seq_single(st1, f, cons, Value::Null, d);
            match alt {
                Some(a) => lemma_seq_single(st1, f, a, Value::Null, d),
                None => {},
            }
        },
        ExprV::Call(callee, args) => {
            lemma_expr_single(st, f, *callee, d);
            let (st1, cv) = eval_expr_spec(st, f, *callee, d);
            lemma_args_single(st1, f, args, d);
            let (st2, av) = eval_args_spec(st1, f, args, d);
            match (cv, av) {
                (Ok(Value::Func(ps, body, env)), Ok(vals)) => {
                    if !(vals.len() > 0 && vals[vals.len() - 1] is Return) && ps.len() == vals.len()
                        && d > 0 && env < st2.parents.len() {
                        assert forall|k: int| 0 <= k < vals.len() implies !(
                        #[trigger] vals[k] is Return) by {
                            if k < vals.len() - 1 {
                            } else {
                                assert(k == vals.len() - 1);
                            }
                        }
                        let nf = st2.parents.len();
                        let st_f = push_frame(st2, env as int);
                        assert(st_f.binds == st2.binds);
                        lemma_bind_params_plain(st_f, nf as int, ps, vals);
                        let st3 = bind_params(st_f, nf as int, ps, vals);
                        lemma_seq_single(st3, nf, body, Value::Null, (d - 1) as nat);
                    }
                },
                _ => {},
            }
        },
        _ => {},
    }
}

/// Arguments: every value but the last is plain, and the last, when it is
/// a return signal, carries a plain value.
proof fn lemma_args_single(st: Store, f: nat, es: Seq<ExprV>, d: nat)
    requires
        no_signal(st),
    ensures
        no_signal(eval_args_spec(st, f, es, d).0),
        eval_args_spec(st, f, es, d).1 matches Ok(vs) ==> (forall|k: int|
            0 <= k < vs.len() - 1 ==> !(#[trigger] vs[k] is Return)) && (vs.len() > 0 ==> single(
            Ok(vs[vs.len() - 1]),
        )),
    decreases d, es,
{
    if es.len() > 0 {
        lemma_expr_single(st, f, es[0], d);
        let (st1, r) = eval_expr_spec(st, f, es[0], d);
        match r {
            Ok(v) => {
                if !(v is Return) {
                    let rest = es.subrange(1, es.len() as int);
                    lemma_args_single(st1, f, rest, d);
                    match eval_args_spec(st1, f, rest, d).1 {
                        Ok(vs) => {
                            let all = seq![v] + vs;
                            assert forall|k: int| 0 <= k < all.len() - 1 implies !(
                            #[trigger] all[k] is Return) by {
                                if k > 0 {
                                    assert(all[k] == vs[k - 1]);
                                }
                            }
                            if vs.len() > 0 {
                                assert(all[all.len() - 1] == vs[vs.len() - 1]);
                            }
                        },
                        Err(_) => {},
                    }
                }
            },
            Err(_) => {},
        }
    }
}

proof fn lemma_stmt_single(st: Store, f: nat, s: StmtV, d: nat)
    requires
        no_signal(st),
    ensures
        no_signal(eval_stmt_spec(st, f, s, d).0),
        single(eval_stmt_spec(st, f, s, d).1),
    decreases d, s,
{
    match s {
        StmtV::Let(n, v) => {
            lemma_expr_single(st, f, v, d);
            let (st1, r) = eval_expr_spec(st, f, v, d);
            match r {
                Ok(x) => if !(x is Return) {
                    lemma_bind_plain(st1, f as int, n, x);
                },
                Err(_) => {},
            }
        },
        StmtV::Return(v) => {
            lemma_expr_single(st, f, v, d);
        },
        StmtV::Expr(e) => {
            lemma_expr_single(st, f, e, d);
        },
        StmtV::Block(ss) => {
            lemma_seq_single(st, f, ss, Value::Null, d);
        },
    }
}

proof fn lemma_seq_single(st: Store, f: nat, ss: Seq<StmtV>, last: Value, d: nat)
    requires
        no_signal(st),
        !(last is Return),
    ensures
        no_signal(eval_seq_spec(st, f, ss, last, d).0),
        single(eval_seq_spec(st, f, ss, last, d).1),
    decreases d, ss,
{
    if ss.len() > 0 {
        lemma_stmt_single(st, f, ss[0], d);
        let (st1, r) = eval_stmt_spec(st, f, ss[0], d);
        match r {
            Ok(v) => if !(v is Return) {
                lemma_seq_single(st1, f, ss.subrange(1, ss.len() as int), v, d);
            },
            Err(_) => {},
        }
    }
}

/// A return signal never comes out of a program: its value is unwrapped
/// at the program's boundary, and no binding made along the way holds one.
pub proof fn lemma_program_unwrapped(st: Store, f: nat, ss: Seq<StmtV>, d: nat)
    requires
        no_signal(st),
    ensures
        no_signal(eval_program_spec(st, f, ss, d).0),
        eval_program_spec(st, f, ss, d).1 matches Ok(v) ==> !(v is Return),
{
    lemma_seq_single(st, f, ss, Value::Null, d);
}

pub open spec fn res_view(r: Result<Object, EvalError>) -> Result<Value, EvalError> {
    match r {
        Ok(o) => Ok(obj_view(o)),
        Err(x) => Err(x),
    }
}

/// Evaluates a node in the global frame, with calls allowed to nest
/// `MAX_CALL_DEPTH` deep.
pub fn eval(node: Node, env: &mut Env) -> (r: Result<Object, EvalError>)
    ensures
        ({
            let st = old(env).store();
            let d = MAX_CALL_DEPTH as nat;
            let out = match node {
                Node::Program(p) => eval_program_spec(st, 0, stmts_view(p.stmts@), d),
                Node::Stmt(s) => eval_stmt_spec(st, 0, stmt_view(s), d),
                Node::Expr(e) => eval_expr_spec(st, 0, expr_view(e), d),
            };
            final(env).store() == out.0 && res_view(r) == out.1
        }),
{
    match node {
        Node::Program(p) => eval_program(&p.stmts, env, 0, MAX_CALL_DEPTH),
        Node::Stmt(s) => eval_stmt(&s, env, 0, MAX_CALL_DEPTH),
        Node::Expr(e) => eval_expr(&e, env, 0, MAX_CALL_DEPTH),
    }
}

/// Evaluates a program's statements in frame `frame` (see `eval_program_spec`).
pub fn eval_program(stmts: &Vec<Stmt>, env: &mut Env, frame: usize, depth: u64) -> (r: Result<
    Object,
    EvalError,
>)
    ensures
        ({
            let out = eval_program_spec(old(env).store(), frame as nat, stmts_view(stmts@), depth as nat);
            final(env).store() == out.0 && res_view(r) == out.1
        }),
        no_signal(old(env).store()) ==> no_signal(final(env).store()) && (r matches Ok(o) ==> !(
        o is Return)),
{
    proof {
        if no_signal(env.store()) {
            lemma_program_unwrapped(env.store(), frame as nat, stmts_view(stmts@), depth as nat);
        }
    }
    let r = eval_block(stmts, env, frame, depth);
    match r {
        Ok(Object::Return(ret)) => Ok(*ret.val),
        _ => r,
    }
}

/// Evaluates statements in order in frame `frame` (see `eval_seq_spec`).
pub fn eval_block(stmts: &Vec<Stmt>, env: &mut Env, frame: usize, depth: u64) -> (r: Result<
    Object,
    EvalError,
>)
    ensures
        ({
            let out = eval_seq_spec(
                old(env).store(),
                frame as nat,
                stmts_view(stmts@),
                Value::Null,
                depth as nat,
            );
            final(env).store() == out.0 && res_view(r) == out.1
        }),
    decreases depth, stmts,
{
    let ghost all = stmts_view(stmts@);
    let ghost st0 = env.store();
    let n = stmts.len();
    proof {
        lemma_stmts_view(stmts@);
        assert(all.subrange(0, n as int) =~= all);
    }
    let mut result = Object::Null(Null {});
    let mut i: usize = 0;
    while i < n
        invariant
            n == stmts@.len(),
            i <= n,
            st0 == old(env).store(),
            all == stmts_view(stmts@),
            all.len() == n,
            forall|k: int| 0 <= k < n ==> #[trigger] all[k] == stmt_view(stmts@[k]),
            eval_seq_spec(st0, frame as nat, all, Value::Null, depth as nat) == eval_seq_spec(
                env.store(),
                frame as nat,
                all.subrange(i as int, n as int),
                obj_view(result),
                depth as nat,
            ),
        decreases n - i,
    {
        proof {
            vstd::std_specs::vec::axiom_vec_index_decreases(*stmts, i as int);
            let rest = all.subrange(i as int, n as int);
            assert(rest.subrange(1, rest.len() as int) =~= all.subrange(i + 1, n as int));
        }
        let r = eval_stmt(&stmts[i], env, frame, depth);
        match r {
            Err(x) => {
                return Err(x);
            },
            Ok(v) => {
                if let Object::Return(_) = &v {
                    return Ok(v);
                }
                result = v;
            },
        }
        i = i + 1;
    }
    proof {
        assert(all.subrange(n as int, n as int) =~= Seq::<StmtV>::empty());
    }
    Ok(result)
}

/// Evaluates one statement in frame `frame` (see `eval_stmt_spec`).
pub fn eval_stmt(stmt: &Stmt, env: &mut Env, frame: usize, depth: u64) -> (r: Result<
    Object,
    EvalError,
>)
    ensures
        ({
            let out = eval_stmt_spec(old(env).store(), frame as nat, stmt_view(*stmt), depth as nat);
            final(env).store() == out.0 && res_view(r) == out.1
        }),
    decreases depth, stmt,
{
    match stmt {
        Stmt::ExprStmt(es) => eval_expr(&es.expr, env, frame, depth),
        Stmt::Block(b) => eval_block(&b.stmts, env, frame, depth),
        Stmt::Return(ret) => {
            let v = eval_expr(&ret.val, env, frame, depth);
            match v {
                Ok(Object::Return(inner)) => Ok(Object::Return(inner)),
                Ok(x) => Ok(Object::Return(Return { val: Box::new(x) })),
                Err(x) => Err(x),
            }
        },
        Stmt::Let(l) => {
            let v = eval_expr(&l.val, env, frame, depth);
            match v {
                Ok(Object::Return(inner)) => Ok(Object::Return(inner)),
                Ok(x) => {
                    env.set_in(frame, l.name.val.clone(), x.duplicate());
                    Ok(x)
                },
                Err(x) => Err(x),
            }
        },
    }
}

/// Evaluates one expression in frame `frame` (see `eval_expr_spec`).
pub fn eval_expr(expr: &Expr, env: &mut Env, frame: usize, depth: u64) -> (r: Result<
    Object,
    EvalError,
>)
    ensures
        ({
            let out = eval_expr_spec(old(env).store(), frame as nat, expr_view(*expr), depth as nat);
            final(env).store() == out.0 && res_view(r) == out.1
        }),
    decreases depth, expr,
{
    match expr {
        Expr::Int(n) => Ok(Object::Int(Int { val: n.val })),
        Expr::Boolean(b) => Ok(Object::Bool(Bool { val: b.val })),
        Expr::Prefix(p) => eval_prefix_expr(p, env, frame, depth),
        Expr::Infix(i) => eval_infix_expr(i, env, frame, depth),
        Expr::If(i) => eval_if_expr(i, env, frame, depth),
        Expr::Ident(i) => match env.get_in(frame, &i.val) {
            Some(v) => Ok(v.duplicate()),
            None => Ok(Object::Null(Null {})),
        },
        Expr::Func(f) => Ok(
            Object::Func(Func { params: dup_idents(&f.params), body: f.body.duplicate(), env: frame }),
        ),
        Expr::Call(c) => eval_call(c, env, frame, depth),
    }
}

/// Evaluates an operand, then applies a prefix operator to it.
pub fn eval_prefix_expr(p: &Prefix, env: &mut Env, frame: usize, depth: u64) -> (r: Result<
    Object,
    EvalError,
>)
    ensures
        ({
            let out = eval_expr_spec(
                old(env).store(),
                frame as nat,
                expr_view(Expr::Prefix(*p)),
                depth as nat,
            );
            final(env).store() == out.0 && res_view(r) == out.1
        }),
    decreases depth, p,
{
    let rhs = match eval_expr(&p.rhs, env, frame, depth) {
        Ok(v) => v,
        Err(x) => {
            return Err(x);
        },
    };
    if let Object::Return(_) = &rhs {
        return Ok(rhs);
    }
    if p.op == String::from_str("!") {
        Ok(eval_prefix_bang(&rhs))
    } else if p.op == String::from_str("-") {
        Ok(eval_prefix_minus(&rhs))
    } else {
        Ok(Object::Null(Null {}))
    }
}

/// The integer an operand stands for (see `operand`).
fn operand_of(o: &Object) -> (r: Option<i64>)
    ensures
        match r {
            Some(n) => operand(obj_view(*o)) == Some(n as int),
            None => operand(obj_view(*o)) is None,
        },
{
    match o {
        Object::Int(n) => Some(n.val),
        Object::Bool(b) => Some(
            if b.val {
                1
            } else {
                0
            },
        ),
        _ => None,
    }
}

/// Applies an infix operator to two integers (see `arith`).
fn apply_arith(op: &String, a: i64, b: i64) -> (r: Result<Object, EvalError>)
    ensures
        res_view(r) == arith(op@, a as int, b as int),
{
    if *op == String::from_str("+") {
        Ok(Object::Int(Int { val: a.wrapping_add(b) }))
    } else if *op == String::from_str("-") {
        Ok(Object::Int(Int { val: a.wrapping_sub(b) }))
    } else if *op == String::from_str("*") {
        Ok(Object::Int(Int { val: a.wrapping_mul(b) }))
    } else if *op == String::from_str("/") {
        if b == 0 {
            Err(EvalError::DivisionByZero)
        } else {
            match a.checked_div(b) {
                Some(q) => Ok(Object::Int(Int { val: q })),
                None => Ok(Object::Int(Int { val: a })),
            }
        }
    } else if *op == String::from_str("<") {
        Ok(Object::Bool(Bool { val: a < b }))
    } else if *op == String::from_str(">") {
        Ok(Object::Bool(Bool { val: a > b }))
    } else if *op == String::from_str("==") {
        Ok(Object::Bool(Bool { val: a == b }))
    } else if *op == String::from_str("!=") {
        Ok(Object::Bool(Bool { val: a != b }))
    } else {
        Ok(Object::Null(Null {}))
    }
}

/// Evaluates both operands, left first, then applies an infix operator.
pub fn eval_infix_expr(i: &Infix, env: &mut Env, frame: usize, depth: u64) -> (r: Result<
    Object,
    EvalError,
>)
    ensures
        ({
            let out = eval_expr_spec(
                old(env).store(),
                frame as nat,
                expr_view(Expr::Infix(*i)),
                depth as nat,
            );
            final(env).store() == out.0 && res_view(r) == out.1
        }),
    decreases depth, i,
{
    let lhs = match eval_expr(&i.lhs, env, frame, depth) {
        Ok(v) => v,
        Err(x) => {
            return Err(x);
        },
    };
    if let Object::Return(_) = &lhs {
        return Ok(lhs);
    }
    let rhs = match eval_expr(&i.rhs, env, frame, depth) {
        Ok(v) => v,
        Err(x) => {
            return Err(x);
        },
    };
    if let Object::Return(_) = &rhs {
        return Ok(rhs);
    }
    match (operand_of(&lhs), operand_of(&rhs)) {
        (Some(a), Some(b)) => apply_arith(&i.op, a, b),
        _ => Ok(Object::Null(Null {})),
    }
}

/// `!rhs` (see `bang_value`).
pub fn eval_prefix_bang(rhs: &Object) -> (r: Object)
    ensures
        obj_view(r) == bang_value(obj_view(*rhs)),
{
    match rhs {
        Object::Bool(b) => Object::Bool(Bool { val: !b.val }),
        Object::Null(_) => Object::Bool(Bool { val: true }),
        _ => Object::Bool(Bool { val: false }),
    }
}

/// `-rhs` (see `minus_value`).
pub fn eval_prefix_minus(rhs: &Object) -> (r: Object)
    ensures
        obj_view(r) == minus_value(obj_view(*rhs)),
{
    match rhs {
        Object::Int(i) => Object::Int(Int { val: 0i64.wrapping_sub(i.val) }),
        _ => Object::Null(Null {}),
    }
}

/// Evaluates the condition, then the branch it selects.
pub fn eval_if_expr(i: &If, env: &mut Env, frame: usize, depth: u64) -> (r: Result<
    Object,
    EvalError,
>)
    ensures
        ({
            let out = eval_expr_spec(
                old(env).store(),
                frame as nat,
                expr_view(Expr::If(*i)),
                depth as nat,
            );
            final(env).store() == out.0 && res_view(r) == out.1
        }),
    decreases depth, i,
{
    let cond = match eval_expr(&i.cond, env, frame, depth) {
        Ok(v) => v,
        Err(x) => {
            return Err(x);
        },
    };
    if let Object::Return(_) = &cond {
        return Ok(cond);
    }
    if is_truthy(&cond) {
        eval_block(&i.cons.stmts, env, frame, depth)
    } else {
        match &i.alt {
            Some(alt) => eval_block(&alt.stmts, env, frame, depth),
            None => Ok(Object::Null(Null {})),
        }
    }
}

fn is_truthy(obj: &Object) -> (r: bool)
    ensures
        r == truthy(obj_view(*obj)),
{
    match obj {
        Object::Null(_) => false,
        Object::Bool(b) => b.val,
        _ => true,
    }
}

/// Evaluates the callee, then the arguments left to right in the caller's
/// frame, then the function's body in a new frame whose parent is the frame
/// the function captured.
fn eval_call(c: &Call, env: &mut Env, frame: usize, depth: u64) -> (r: Result<Object, EvalError>)
    ensures
        ({
            let out = eval_expr_spec(
                old(env).store(),
                frame as nat,
                expr_view(Expr::Call(*c)),
                depth as nat,
            );
            final(env).store() == out.0 && res_view(r) == out.1
        }),
    decreases depth, c,
{
    let callee = match eval_expr(&c.func, env, frame, depth) {
        Ok(v) => v,
        Err(x) => {
            return Err(x);
        },
    };
    if let Object::Return(_) = &callee {
        return Ok(callee);
    }
    let ghost st1 = env.store();
    let ghost all = exprs_view(c.args@);
    let n = c.args.len();
    proof {
        lemma_exprs_view(c.args@);
        assert(all.subrange(0, n as int) =~= all);
    }
    let mut args: Vec<Object> = Vec::new();
    let mut i: usize = 0;
    while i < n
        invariant
            n == c.args@.len(),
            i <= n,
            eval_expr_spec(old(env).store(), frame as nat, expr_view(*c.func), depth as nat) == (
                st1,
                Ok::<Value, EvalError>(obj_view(callee)),
            ),
            all == exprs_view(c.args@),
            all.len() == n,
            forall|k: int| 0 <= k < n ==> #[trigger] all[k] == expr_view(c.args@[k]),
            args@.len() == i,
            forall|k: int| 0 <= k < i ==> !(#[trigger] obj_view(args@[k]) is Return),
            !(obj_view(callee) is Return),
            ({
                let total = eval_args_spec(st1, frame as nat, all, depth as nat);
                let rest = eval_args_spec(
                    env.store(),
                    frame as nat,
                    all.subrange(i as int, n as int),
                    depth as nat,
                );
                &&& total.0 == rest.0
                &&& total.1 == match rest.1 {
                    Ok(vs) => Ok(args@.map_values(|o: Object| obj_view(o)) + vs),
                    Err(x) => Err(x),
                }
            }),
        decreases n - i,
    {
        proof {
            vstd::std_specs::vec::axiom_vec_index_decreases(c.args, i as int);
            let rest = all.subrange(i as int, n as int);
            assert(rest.subrange(1, rest.len() as int) =~= all.subrange(i + 1, n as int));
        }
        let ghost ab = args@;
        let v = match eval_expr(&c.args[i], env, frame, depth) {
            Ok(v) => v,
            Err(x) => {
                return Err(x);
            },
        };
        if let Object::Return(_) = &v {
            proof {
                let vals = args@.map_values(|o: Object| obj_view(o)).push(obj_view(v));
                assert(args@.map_values(|o: Object| obj_view(o)) + seq![obj_view(v)] =~= vals);
            }
            return Ok(v);
        }
        args.push(v);
        i = i + 1;
        proof {
            let rest = eval_args_spec(
                env.store(),
                frame as nat,
                all.subrange(i as int, n as int),
                depth as nat,
            );
            if rest.1 is Ok {
                assert(ab.map_values(|o: Object| obj_view(o)) + (seq![obj_view(v)] + rest.1->Ok_0)
                    =~= args@.map_values(|o: Object| obj_view(o)) + rest.1->Ok_0);
            }
        }
    }
    proof {
        assert(all.subrange(n as int, n as int) =~= Seq::<ExprV>::empty());
        assert(args@.map_values(|o: Object| obj_view(o)) + Seq::<Value>::empty()
            =~= args@.map_values(|o: Object| obj_view(o)));
    }
    match callee {
        Object::Func(f) => {
            if f.params.len() != n {
                return Err(EvalError::ArityMismatch { expected: f.params.len(), got: n });
            }
            if depth == 0 {
                return Err(EvalError::CallDepthExceeded);
            }
            if f.env >= env.frames() {
                return Ok(Object::Null(Null {}));
            }
            let ghost st2 = env.store();
            let ghost ps = names_view(f.params@);
            let ghost vals = args@.map_values(|o: Object| obj_view(o));
            let nf = env.new_frame(f.env);
            proof {
                assert(ps.subrange(0, n as int) =~= ps);
                assert(vals.subrange(0, n as int) =~= vals);
            }
            let mut k: usize = 0;
            while k < n
                invariant
                    n == f.params@.len(),
                    n == args@.len(),
                    k <= n,
                    ps == names_view(f.params@),
                    vals == args@.map_values(|o: Object| obj_view(o)),
                    bind_params(push_frame(st2, f.env as int), nf as int, ps, vals) == bind_params(
                        env.store(),
                        nf as int,
                        ps.subrange(k as int, n as int),
                        vals.subrange(k as int, n as int),
                    ),
                decreases n - k,
            {
                proof {
                    let ps_rest = ps.subrange(k as int, n as int);
                    let vals_rest = vals.subrange(k as int, n as int);
                    assert(ps_rest.subrange(1, ps_rest.len() as int) =~= ps.subrange(k + 1, n as int));
                    assert(vals_rest.subrange(1, vals_rest.len() as int) =~= vals.subrange(k + 1, n as int));
                }
                env.set_in(nf, f.params[k].val.clone(), args[k].duplicate());
                k = k + 1;
            }
            proof {
                assert(ps.subrange(n as int, n as int) =~= Seq::<Seq<char>>::empty());
            }
            let r = eval_block(&f.body.stmts, env, nf, depth - 1);
            match r {
                Ok(Object::Return(ret)) => Ok(*ret.val),
                _ => r,
            }
        },
        _ => Ok(Object::Null(Null {})),
    }
}

} // verus!
