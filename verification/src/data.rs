//! Values and errors as the running program holds them.

use vstd::prelude::*;
use std::rc::Rc;
use vstd::string::StringExecFns;
use crate::env::Env;
use crate::model::{Primitive, Value, Failure, Outcome, render, render_items, failure_text};
use crate::text::push_decimal;

verus! {

/// A native function, named by the operation it performs.
#[derive(Debug)]
pub struct AtomFunc(pub Primitive);

/// A user-defined function or macro: its parameters, its unevaluated body and
/// the frame that was current where `fn*` was evaluated.
#[derive(Debug)]
pub struct AFuncData {
    /// The body, evaluated anew at every call.
    pub exp: AtomVal,
    /// The frame in which every call's own frame is opened.
    pub env: Env,
    /// The list of parameter names. The name after `&`, if there is one,
    /// takes the arguments that are left over.
    pub params: AtomVal,
    /// Whether calls receive their arguments unevaluated and have their
    /// result evaluated in place of the call.
    pub is_macro: bool,
}

/// A value of the language. Code and data are made of the same values: a
/// form is a list, a name is a symbol.
#[derive(Debug)]
pub enum AtomType {
    Nil,
    Int(i64),
    Symbol(String),
    List(Vec<AtomVal>),
    Func(AtomFunc),
    AFunc(AFuncData),
}

/// A value as it is handed around: shared, and never changed once made.
pub type AtomVal = Rc<AtomType>;

/// What an evaluation returns: a value, or the one failure that ended it.
pub type AtomRet = Result<AtomVal, AtomError>;

/// The failures of an evaluation. Each ends the evaluation of the form it
/// occurs in and of every form around it.
#[derive(Debug, PartialEq)]
pub enum AtomError {
    /// What was expected, and a rendering of what was received.
    InvalidType(String, String),
    InvalidOperation(String),
    InvalidArgument(String),
    UndefinedSymbol(String),
    /// A bound on nesting or on repetition was reached.
    LimitExceeded(String),
}

/// The models of a sequence of values, element by element.
pub open spec fn values_of(items: Seq<AtomVal>) -> Seq<Value>
    decreases items,
{
    Seq::new(
        items.len(),
        |i: int|
            if 0 <= i < items.len() {
                value_of(*items[i])
            } else {
                Value::Nil
            },
    )
}

/// The model of one value.
pub open spec fn value_of(a: AtomType) -> Value
    decreases a,
{
    match a {
        AtomType::Nil => Value::Nil,
        AtomType::Int(n) => Value::Int(n as int),
        AtomType::Symbol(s) => Value::Symbol(s@),
        AtomType::List(v) => Value::List(values_of(v@)),
        AtomType::Func(f) => Value::Func(f.0),
        AtomType::AFunc(d) => Value::AFunc {
            exp: Box::new(value_of(*d.exp)),
            env: d.env as nat,
            params: Box::new(value_of(*d.params)),
            is_macro: d.is_macro,
        },
    }
}

impl View for AtomType {
    type V = Value;

    open spec fn view(&self) -> Value {
        value_of(*self)
    }
}

/// The model of what an evaluation returned.
pub open spec fn outcome_of(r: AtomRet) -> Outcome {
    match r {
        Ok(v) => Ok(v@),
        Err(e) => Err(e@),
    }
}

/// The model of what a binding operation returned.
pub open spec fn unit_of(r: Result<(), AtomError>) -> Result<(), Failure> {
    match r {
        Ok(_) => Ok(()),
        Err(e) => Err(e@),
    }
}

/// The model of what the evaluation of a sequence returned.
pub open spec fn each_of(r: Result<Vec<AtomVal>, AtomError>) -> Result<Seq<Value>, Failure> {
    match r {
        Ok(v) => Ok(values_of(v@)),
        Err(e) => Err(e@),
    }
}

/// The models of a part of a sequence are that part of its models.
pub(crate) proof fn lemma_values_of_subrange(items: Seq<AtomVal>, from: int, to: int)
    requires
        0 <= from <= to <= items.len(),
    ensures
        values_of(items.subrange(from, to)) == values_of(items).subrange(from, to),
{
    assert(values_of(items.subrange(from, to)) =~= values_of(items).subrange(from, to));
}

/// The models of a sequence with one more value.
pub(crate) proof fn lemma_values_of_push(items: Seq<AtomVal>, v: AtomVal)
    ensures
        values_of(items.push(v)) == values_of(items).push(v@),
{
    assert(values_of(items.push(v)) =~= values_of(items).push(v@));
}

impl View for AtomError {
    type V = Failure;

    open spec fn view(&self) -> Failure {
        match self {
            AtomError::InvalidType(expected, got) => Failure::InvalidType(expected@, got@),
            AtomError::InvalidOperation(op) => Failure::InvalidOperation(op@),
            AtomError::InvalidArgument(what) => Failure::InvalidArgument(what@),
            AtomError::UndefinedSymbol(name) => Failure::UndefinedSymbol(name@),
            AtomError::LimitExceeded(what) => Failure::LimitExceeded(what@),
        }
    }
}

/// `Rc::clone` hands back a second handle to the same value.
#[verifier::external_body]
pub(crate) fn share(v: &AtomVal) -> (r: AtomVal)
    ensures
        r == *v,
{
    v.clone()
}

impl AtomType {
    /// Appends the printed form of the value to `out`.
    pub(crate) fn push_rendering(&self, out: &mut String, with_type: bool)
        ensures
            final(out)@ == old(out)@ + render(self@, with_type),
        decreases self,
    {
        let ghost start = out@;
        match self {
            AtomType::Nil => {
                out.append(if with_type { "Nil()" } else { "nil" });
            },
            AtomType::Int(num) => {
                if with_type {
                    out.append("Int(");
                    push_decimal(out, *num);
                    out.append(")");
                } else {
                    push_decimal(out, *num);
                }
            },
            AtomType::Symbol(symbol) => {
                if with_type {
                    out.append("Symbol(");
                    out.append(symbol.as_str());
                    out.append(")");
                } else {
                    out.append(symbol.as_str());
                }
            },
            AtomType::List(seq) => {
                let opening: &str = if with_type { "List(" } else { "(" };
                out.append(opening);
                let mut k: usize = 0;
                while k < seq.len()
                    invariant
                        k <= seq.len(),
                        decreases_to!(self => seq),
                        out@ =~= start + opening@ + render_items(
                            values_of(seq@),
                            with_type,
                            k as nat,
                        ),
                    decreases seq.len() - k,
                {
                    if k > 0 {
                        out.append(" ");
                    }
                    let item: &AtomType = &*seq[k];
                    item.push_rendering(out, with_type);
                    k = k + 1;
                }
                out.append(")");
            },
            AtomType::Func(_) => {
                out.append("#func()");
            },
            AtomType::AFunc(data) => {
                if with_type {
                    out.append("#");
                    out.append(if data.is_macro { "macro" } else { "builtin_func" });
                    out.append("(exp=");
                    let exp: &AtomType = &*data.exp;
                    exp.push_rendering(out, false);
                    out.append(" params=");
                    let params: &AtomType = &*data.params;
                    params.push_rendering(out, true);
                    out.append(")");
                } else {
                    out.append(if data.is_macro { "#macro()" } else { "#builtin_func()" });
                }
            },
        }
        assert(out@ =~= start + render(self@, with_type));
    }

    /// The printed form of the value: plain, or naming each value's kind.
    pub fn format(&self, with_type: bool) -> (s: String)
        ensures
            s@ == render(self@, with_type),
    {
        let mut out = String::new();
        self.push_rendering(&mut out, with_type);
        assert(out@ =~= render(self@, with_type));
        out
    }

    /// The failure that reports this value where `expected` was called for.
    pub(crate) fn mismatch(&self, expected: &str) -> (e: AtomError)
        ensures
            e@ == Failure::InvalidType(expected@, render(self@, true)),
    {
        AtomError::InvalidType(String::from_str(expected), self.format(true))
    }

    /// The integer that the value is, or the failure that reports what it is
    /// instead.
    pub fn get_int(&self) -> (r: Result<i64, AtomError>)
        ensures
            self@ matches Value::Int(n) ==> r == Ok::<i64, AtomError>(n as i64),
            !(self@ is Int) ==> (r matches Err(e) && e@ == Failure::InvalidType(
                "Int"@,
                render(self@, true),
            )),
    {
        match self {
            AtomType::Int(i) => Ok(*i),
            _ => Err(self.mismatch("Int")),
        }
    }

    /// The elements of the list that the value is, or the failure that
    /// reports what it is instead.
    pub fn get_list<'a>(&'a self) -> (r: Result<&'a Vec<AtomVal>, AtomError>)
        ensures
            self@ matches Value::List(items) ==> (r matches Ok(list) && values_of(list@) == items
                && *self == AtomType::List(*list)),
            !(self@ is List) ==> (r matches Err(e) && e@ == Failure::InvalidType(
                "List"@,
                render(self@, true),
            )),
    {
        match self {
            AtomType::List(list) => Ok(list),
            _ => Err(self.mismatch("List")),
        }
    }

    /// The name of the symbol that the value is, or the failure that reports
    /// what it is instead.
    pub fn get_symbol<'a>(&'a self) -> (r: Result<&'a str, AtomError>)
        ensures
            self@ matches Value::Symbol(name) ==> (r matches Ok(s) && s@ == name),
            !(self@ is Symbol) ==> (r matches Err(e) && e@ == Failure::InvalidType(
                "Symbol"@,
                render(self@, true),
            )),
    {
        match self {
            AtomType::Symbol(s) => Ok(s.as_str()),
            _ => Err(self.mismatch("Symbol")),
        }
    }
}

impl AtomError {
    /// The text that reports the failure.
    pub fn message(&self) -> (s: String)
        ensures
            s@ == failure_text(self@),
    {
        match self {
            AtomError::InvalidType(expected, got) => {
                let mut s = String::from_str("expected: ");
                s.append(expected.as_str());
                s.append(", received: ");
                s.append(got.as_str());
                s
            },
            AtomError::InvalidOperation(op) => {
                let mut s = String::from_str("invalid operation: ");
                s.append(op.as_str());
                s
            },
            AtomError::InvalidArgument(what) => {
                let mut s = String::from_str("invalid argument: ");
                s.append(what.as_str());
                s
            },
            AtomError::UndefinedSymbol(name) => {
                let mut s = String::from_str("undefined symbol: ");
                s.append(name.as_str());
                s
            },
            AtomError::LimitExceeded(what) => {
                let mut s = String::from_str("limit exceeded: ");
                s.append(what.as_str());
                s
            },
        }
    }
}

/// The value `Nil`.
pub fn c_nil() -> (r: AtomVal)
    ensures
        r@ == Value::Nil,
{
    Rc::new(AtomType::Nil)
}

/// An integer.
pub fn c_int(num: i64) -> (r: AtomVal)
    ensures
        r@ == Value::Int(num as int),
{
    Rc::new(AtomType::Int(num))
}

/// The symbol of the given name.
pub fn c_symbol(symbol: String) -> (r: AtomVal)
    ensures
        r@ == Value::Symbol(symbol@),
{
    Rc::new(AtomType::Symbol(symbol))
}

/// The list of the given values.
pub fn c_list(seq: &[AtomVal]) -> (r: AtomVal)
    ensures
        r@ == Value::List(values_of(seq@)),
{
    let mut items: Vec<AtomVal> = Vec::new();
    let mut k: usize = 0;
    while k < seq.len()
        invariant
            k <= seq.len(),
            items@ =~= seq@.subrange(0, k as int),
        decreases seq.len() - k,
    {
        items.push(share(&seq[k]));
        k = k + 1;
    }
    assert(items@ =~= seq@);
    Rc::new(AtomType::List(items))
}

/// The native function that performs the given operation.
pub fn c_func(f: Primitive) -> (r: AtomVal)
    ensures
        r@ == Value::Func(f),
{
    Rc::new(AtomType::Func(AtomFunc(f)))
}

/// The closure of the given parameters and body over the frame `env`.
pub fn c_afunc(env: Env, params: AtomVal, exp: AtomVal) -> (r: AtomVal)
    ensures
        r@ == (Value::AFunc {
            exp: Box::new(exp@),
            env: env as nat,
            params: Box::new(params@),
            is_macro: false,
        }),
{
    Rc::new(AtomType::AFunc(AFuncData { exp, env, params, is_macro: false }))
}

/// The macro that has the parameters, body and frame of the given closure.
pub fn c_macro(fd: &AFuncData) -> (r: AtomVal)
    ensures
        r@ == (Value::AFunc {
            exp: Box::new(fd.exp@),
            env: fd.env as nat,
            params: Box::new(fd.params@),
            is_macro: true,
        }),
{
    Rc::new(
        AtomType::AFunc(
            AFuncData {
                exp: share(&fd.exp),
                env: fd.env,
                params: share(&fd.params),
                is_macro: true,
            },
        ),
    )
}

} // verus!
