use vstd::prelude::*;
use vstd::string::StringExecFns;
use crate::ast::{
    dup_idents, int_text, names_text, names_view, render_int, render_stmts, stmts_text,
    stmts_view, Block, Ident, StmtV,
};

verus! {

/// A value at run time.
#[derive(Debug)]
pub enum Object {
    Int(Int),
    Bool(Bool),
    Null(Null),
    /// The value of a `return`, carried up to the enclosing call or program.
    Return(Return),
    Func(Func),
}

#[derive(Debug)]
pub struct Int {
    pub val: i64,
}

#[derive(Debug)]
pub struct Bool {
    pub val: bool,
}

#[derive(Debug)]
pub struct Null {}

#[derive(Debug)]
pub struct Return {
    pub val: Box<Object>,
}

/// A closure: a function literal with the frame of the environment it was
/// evaluated in.
#[derive(Debug)]
pub struct Func {
    pub params: Vec<Ident>,
    pub body: Block,
    pub env: usize,
}

/// The meaning of a run-time value.
pub enum Value {
    Int(int),
    Bool(bool),
    Null,
    Return(Box<Value>),
    /// Parameter names, body, and the frame captured.
    Func(Seq<Seq<char>>, Seq<StmtV>, nat),
}

pub open spec fn obj_view(o: Object) -> Value
    decreases o,
{
    match o {
        Object::Int(i) => Value::Int(i.val as int),
        Object::Bool(b) => Value::Bool(b.val),
        Object::Null(_) => Value::Null,
        Object::Return(r) => Value::Return(Box::new(obj_view(*r.val))),
        Object::Func(f) => Value::Func(names_view(f.params@), stmts_view(f.body.stmts@), f.env as nat),
    }
}

/// The display form of a value: decimal digits, `true`/`false`, `null`, the
/// carried value of a return, or a function's parameters and body.
pub open spec fn value_text(v: Value) -> Seq<char>
    decreases v,
{
    match v {
        Value::Int(n) => int_text(n),
        Value::Bool(b) => if b {
            "true"@
        } else {
            "false"@
        },
        Value::Null => "null"@,
        Value::Return(inner) => value_text(*inner),
        Value::Func(ps, body, _) => "fn("@ + names_text(ps) + ") { "@ + stmts_text(body) + " }"@,
    }
}

impl Object {
    /// A copy of this value.
    pub fn duplicate(&self) -> (r: Object)
        ensures
            obj_view(r) == obj_view(*self),
        decreases self,
    {
        match self {
            Object::Int(i) => Object::Int(Int { val: i.val }),
            Object::Bool(b) => Object::Bool(Bool { val: b.val }),
            Object::Null(_) => Object::Null(Null {}),
            Object::Return(r) => Object::Return(Return { val: Box::new(r.val.duplicate()) }),
            Object::Func(f) => Object::Func(
                Func { params: dup_idents(&f.params), body: f.body.duplicate(), env: f.env },
            ),
        }
    }

    /// The display form of this value (see `value_text`).
    pub fn render(&self) -> (r: String)
        ensures
            r@ == value_text(obj_view(*self)),
        decreases self,
    {
        match self {
            Object::Int(i) => render_int(i.val),
            Object::Bool(b) => if b.val {
                String::from_str("true")
            } else {
                String::from_str("false")
            },
            Object::Null(_) => String::from_str("null"),
            Object::Return(r) => r.val.render(),
            Object::Func(f) => {
                let mut r = String::from_str("fn(");
                let ps = crate::ast::render_names(&f.params);
                r.append(ps.as_str());
                r.append(") { ");
                let body = render_stmts(&f.body.stmts);
                r.append(body.as_str());
                r.append(" }");
                r
            },
        }
    }
}

} // verus!
