use vstd::prelude::*;

use std::rc::Rc;

use crate::ast::{
    clone_strings, deep_branches, deep_exprs, deep_params, deep_stmts, lemma_deep_branches_index,
    lemma_deep_exprs_index, lemma_deep_stmts_index, BinaryOp, Block, BlockV, BranchV, Expr, ExprV,
    Program, Stmt, StmtV, UnaryOp,
};
use crate::error::{error, Error, ErrorKind};
use crate::semantics::{
    assign_v, bind_params, call_v, env_define, env_wf, envs_wf, eval_binop, eval_block_v, eval_expr_v,
    eval_branches_v, eval_exprs_v, eval_program_v, eval_stmt_v, eval_stmts_v, kind_of, lemma_bind_params_wf, lemma_env_define_wf,
    lemma_envs_wf_push, lemma_lookup_wf, lemma_size_branches_index, lemma_size_exprs_index,
    lemma_size_stmts_index, lookup, size_block_v, size_expr_v, size_opt_block, size_stmt_v, truthy, value_wf, EnvV,
    FnV, RunErrV, ValueV,
};
use crate::span::Span;

verus! {

/// The runtime classification of a value, carried by runtime errors and
/// reported by `Value::kind_name`.
#[derive(Clone, Copy, Debug, PartialEq, Eq, Structural)]
pub enum ValueKind {
    Int,
    Str,
    Bool,
    Function,
    NoValue,
}

/// A runtime value: an integer, a string, a boolean, a function, or the
/// no-value that separator-terminated blocks produce.
#[derive(Debug)]
pub enum Value {
    Int(i64),
    Str(String),
    Bool(bool),
    Function(Rc<FunctionValue>),
    NoValue,
}

/// A function's parameters and body, kept for embedders that carry
/// declarations around outside an environment.
#[derive(Debug)]
pub struct FunctionDef {
    body: Block,
    params: Vec<String>,
}

/// A function value: name, parameters, body, and the arena index of the
/// environment captured at its declaration site. It is shared and
/// immutable after creation.
#[derive(Debug)]
pub struct FunctionValue {
    pub name: String,
    pub params: Vec<String>,
    pub body: Block,
    pub closure: usize,
}

/// Relies on std's Rc::clone: the clone is the same shared function value.
#[verifier::external_body]
fn rc_clone_fv(rc: &Rc<FunctionValue>) -> (res: Rc<FunctionValue>)
    ensures
        res == *rc,
{
    Rc::clone(rc)
}

impl FunctionValue {
    pub open spec fn deep(&self) -> FnV {
        FnV {
            name: self.name@,
            params: deep_params(self.params@),
            body: self.body.deep(),
            closure: self.closure as int,
        }
    }
}

impl Value {
    pub open spec fn deep(&self) -> ValueV {
        match self {
            Value::Int(i) => ValueV::Int(*i),
            Value::Str(s) => ValueV::Str(s@),
            Value::Bool(b) => ValueV::Bool(*b),
            Value::Function(f) => ValueV::Fn(f.deep()),
            Value::NoValue => ValueV::NoValue,
        }
    }

    /// Truthiness: booleans count as themselves, integers as being
    /// non-zero, strings as being non-empty, the no-value as false, and
    /// functions as true.
    pub fn is_truthy(&self) -> (r: bool)
        ensures
            r == truthy(self.deep()),
    {
        match self {
            Value::Bool(b) => *b,
            Value::Int(i) => *i != 0,
            Value::Str(s) => !s.as_str().is_empty(),
            Value::NoValue => false,
            Value::Function(_) => true,
        }
    }

    /// The runtime classification of the value.
    pub fn kind(&self) -> (k: ValueKind)
        ensures
            k == kind_of(self.deep()),
    {
        match self {
            Value::Bool(_) => ValueKind::Bool,
            Value::Int(_) => ValueKind::Int,
            Value::Str(_) => ValueKind::Str,
            Value::Function(_) => ValueKind::Function,
            Value::NoValue => ValueKind::NoValue,
        }
    }

    /// The name of the value's runtime kind, as diagnostics print it.
    pub fn kind_name(&self) -> (r: &'static str)
        ensures
            r@ == kind_name_of(kind_of(self.deep())),
    {
        proof {
            reveal_strlit("bool");
            reveal_strlit("int");
            reveal_strlit("string");
            reveal_strlit("function");
            reveal_strlit("none");
        }
        match self {
            Value::Bool(_) => "bool",
            Value::Int(_) => "int",
            Value::Str(_) => "string",
            Value::Function(_) => "function",
            Value::NoValue => "none",
        }
    }
}

/// The characters of each runtime kind's printed name.
pub open spec fn kind_name_of(k: ValueKind) -> Seq<char> {
    match k {
        ValueKind::Bool => "bool"@,
        ValueKind::Int => "int"@,
        ValueKind::Str => "string"@,
        ValueKind::Function => "function"@,
        ValueKind::NoValue => "none"@,
    }
}

impl Clone for Value {
    /// The clone has the same view as the original.
    fn clone(&self) -> (r: Self)
        ensures
            r.deep() == self.deep(),
    {
        match self {
            Value::Int(i) => Value::Int(*i),
            Value::Str(s) => Value::Str(s.clone()),
            Value::Bool(b) => Value::Bool(*b),
            Value::Function(f) => Value::Function(rc_clone_fv(f)),
            Value::NoValue => Value::NoValue,
        }
    }
}

impl PartialEq for Value {
    /// Equality as the runtime compares values: integers, strings and
    /// booleans by contents, everything else — functions and the
    /// no-value included — never equal.
    fn eq(&self, other: &Self) -> (r: bool) {
        match (self, other) {
            (Value::Bool(l), Value::Bool(r2)) => *l == *r2,
            (Value::Int(l), Value::Int(r2)) => *l == *r2,
            (Value::Str(l), Value::Str(r2)) => l.eq(r2),
            _ => false,
        }
    }
}

impl vstd::std_specs::cmp::PartialEqSpecImpl for Value {
    open spec fn obeys_eq_spec() -> bool {
        true
    }

    open spec fn eq_spec(&self, other: &Self) -> bool {
        match (self, other) {
            (Value::Bool(l), Value::Bool(r)) => l == r,
            (Value::Int(l), Value::Int(r)) => l == r,
            (Value::Str(l), Value::Str(r)) => l@ == r@,
            _ => false,
        }
    }
}

/// The bindings spelled by an association list, later entries shadowing
/// earlier ones.
pub open spec fn assoc_map(s: Seq<(String, Value)>) -> Map<Seq<char>, ValueV>
    decreases s.len(),
{
    if s.len() == 0 {
        Map::empty()
    } else {
        assoc_map(s.drop_last()).insert(s.last().0@, s.last().1.deep())
    }
}

pub proof fn lemma_assoc_push(s: Seq<(String, Value)>, p: (String, Value))
    ensures
        assoc_map(s.push(p)) == assoc_map(s).insert(p.0@, p.1.deep()),
{
    let t = s.push(p);
    assert(t.drop_last() =~= s);
    assert(t.last() == p);
}

/// One record of the environment arena: its bindings in insertion order
/// (a later binding for a name shadows an earlier one) and the arena
/// index of the parent record.
#[derive(Debug)]
pub struct Environment {
    pub values: Vec<(String, Value)>,
    pub parent: Option<usize>,
}

/// The views of the arena's records.
pub open spec fn deep_envs(es: Seq<Environment>) -> Seq<EnvV> {
    es.map_values(|e: Environment| e.deep())
}

/// The views of a sequence of argument values.
pub open spec fn deep_values(vs: Seq<Value>) -> Seq<ValueV> {
    vs.map_values(|v: Value| v.deep())
}

impl Environment {
    pub open spec fn deep(&self) -> EnvV {
        EnvV {
            vals: assoc_map(self.values@),
            parent: match self.parent {
                Some(p) => Some(p as int),
                None => None,
            },
        }
    }

    /// A root environment: no bindings, no parent.
    pub fn new() -> (r: Self)
        ensures
            r.deep() == (EnvV { vals: Map::<Seq<char>, ValueV>::empty(), parent: None::<int> }),
    {
        Environment { values: Vec::new(), parent: None }
    }

    /// A fresh environment chained under the record at the given index.
    pub fn extend(parent: usize) -> (r: Self)
        ensures
            r.deep() == (EnvV {
                vals: Map::<Seq<char>, ValueV>::empty(),
                parent: Some(parent as int),
            }),
    {
        Environment { values: Vec::new(), parent: Some(parent) }
    }

    /// Creates or overwrites a binding for the name in this record alone.
    pub fn define(&mut self, name: String, value: Value)
        ensures
            final(self).deep() == (EnvV {
                vals: old(self).deep().vals.insert(name@, value.deep()),
                parent: old(self).deep().parent,
            }),
    {
        proof {
            lemma_assoc_push(self.values@, (name, value));
        }
        self.values.push((name, value));
    }

    /// Resolves a name starting at the record at index `e` and walking
    /// outward through the parents: exactly the chained lookup of the
    /// semantics.
    #[verifier::loop_isolation(false)]
    pub fn get(envs: &Vec<Environment>, e: usize, name: &String) -> (r: Option<Value>)
        requires
            envs_wf(deep_envs(envs@)),
            e < envs@.len(),
        ensures
            match r {
                Some(v) => lookup(deep_envs(envs@), e as int, name@) == Some(v.deep()),
                None => lookup(deep_envs(envs@), e as int, name@) is None,
            },
        decreases e,
    {
        proof {
            assert(deep_envs(envs@)[e as int] == envs@[e as int].deep());
        }
        let n = envs[e].values.len();
        proof {
            assert(envs@[e as int].values@.subrange(0, n as int) =~= envs@[e as int].values@);
        }
        let mut i = n;
        while i > 0
            invariant
                i <= n,
                forall|j: int| i <= j < n ==> envs@[e as int].values@[j].0@ != name@,
                envs@[e as int].deep().vals.contains_key(name@) <==> assoc_map(
                    envs@[e as int].values@.subrange(0, i as int),
                ).contains_key(name@),
                envs@[e as int].deep().vals.contains_key(name@) ==> envs@[
                    e as int
                ].deep().vals[name@] == assoc_map(
                    envs@[e as int].values@.subrange(0, i as int),
                )[name@],
            decreases i,
        {
            i = i - 1;
            proof {
                assert(envs@[e as int].values@.subrange(0, i + 1).drop_last() =~= envs@[
                    e as int
                ].values@.subrange(0, i as int));
                assert(envs@[e as int].values@.subrange(0, i + 1).last() == envs@[e as int].values@[
                    i as int
                ]);
            }
            let entry = &envs[e].values[i];
            if entry.0.eq(name) {
                return Some(entry.1.clone());
            }
        }
        proof {
            assert(envs@[e as int].values@.subrange(0, 0) =~= Seq::<(String, Value)>::empty());
            assert(!envs@[e as int].deep().vals.contains_key(name@));
        }
        match envs[e].parent {
            Some(p) => {
                proof {
                    assert(env_wf(
                        deep_envs(envs@)[e as int],
                        e as int,
                        deep_envs(envs@).len() as int,
                    ));
                }
                Self::get(envs, p, name)
            },
            None => None,
        }
    }

    /// Walks outward from the record at index `e` until a binding for the
    /// name is found and overwrites it there; reports whether one was.
    #[verifier::loop_isolation(false)]
    pub fn assign(envs: &mut Vec<Environment>, e: usize, name: &String, value: Value) -> (r: bool)
        requires
            envs_wf(deep_envs(old(envs)@)),
            e < old(envs)@.len(),
        ensures
            (deep_envs(final(envs)@), r) == assign_v(
                deep_envs(old(envs)@),
                e as int,
                name@,
                value.deep(),
            ),
        decreases e,
    {
        proof {
            assert(deep_envs(envs@)[e as int] == envs@[e as int].deep());
        }
        let n = envs[e].values.len();
        proof {
            assert(envs@[e as int].values@.subrange(0, n as int) =~= envs@[e as int].values@);
        }
        let ghost envs0 = deep_envs(envs@);
        let mut i = n;
        while i > 0
            invariant
                i <= n,
                envs@ == old(envs)@,
                forall|j: int| i <= j < n ==> envs@[e as int].values@[j].0@ != name@,
                envs0[e as int].vals.contains_key(name@) <==> assoc_map(
                    envs@[e as int].values@.subrange(0, i as int),
                ).contains_key(name@),
            decreases i,
        {
            i = i - 1;
            proof {
                assert(envs@[e as int].values@.subrange(0, i + 1).drop_last() =~= envs@[
                    e as int
                ].values@.subrange(0, i as int));
                assert(envs@[e as int].values@.subrange(0, i + 1).last() == envs@[e as int].values@[
                    i as int
                ]);
            }
            let found = envs[e].values[i].0.eq(name);
            if found {
                let ghost pre = envs@;
                let mut env = envs.remove(e);
                env.define(name.clone(), value);
                envs.insert(e, env);
                proof {
                    assert(envs@ =~= pre.update(e as int, envs@[e as int]));
                    assert(deep_envs(envs@) =~= env_define(envs0, e as int, name@, value.deep()));
                }
                return true;
            }
        }
        proof {
            assert(envs@[e as int].values@.subrange(0, 0) =~= Seq::<(String, Value)>::empty());
            assert(!envs0[e as int].vals.contains_key(name@));
        }
        let parent = envs[e].parent;
        match parent {
            Some(p) => {
                proof {
                    assert(env_wf(envs0[e as int], e as int, envs0.len() as int));
                }
                Self::assign(envs, p, name, value)
            },
            None => false,
        }
    }
}

/// An integer's magnitude, widened so the most negative value fits.
fn abs_u64(a: i64) -> (r: u64)
    ensures
        r as int == crate::semantics::abs_i64(a),
{
    if a >= 0 {
        a as u64
    } else {
        ((-(a + 1)) as u64) + 1
    }
}

/// The exec error kind says exactly what the semantic error says.
pub open spec fn kind_matches(k: ErrorKind, ev: RunErrV) -> bool {
    match ev {
        RunErrV::UndefinedVariable(n) => k matches ErrorKind::UndefinedVariable { name } && name@
            == n,
        RunErrV::UnsupportedOperation { op, lhs, rhs } => k matches ErrorKind::UnsupportedOperation {
            op: op2,
            lhs: l2,
            rhs: r2,
        } && op2 == op && l2 == lhs && r2 == rhs,
        RunErrV::InvalidUnaryApplication { op, operand } => k
            matches ErrorKind::InvalidUnaryApplication { op: op2, operand: o2 } && op2 == op && o2
            == operand,
        RunErrV::ArityMismatch { expected, actual } => k matches ErrorKind::ArityMismatch {
            expected: e2,
            actual: a2,
        } && e2 == expected && a2 == actual,
        RunErrV::NotCallable(kd) => k matches ErrorKind::NotCallable { kind } && kind == kd,
        RunErrV::DivisionByZero => k is DivisionByZero,
        RunErrV::OutOfFuel => k is OutOfFuel,
    }
}

/// A runtime error carries the empty span and the matching kind.
pub open spec fn run_err_matches(e: Error, ev: RunErrV) -> bool {
    &&& e.span == (Span { start: 0, end: 0 })
    &&& kind_matches(e.kind, ev)
}

/// The executed outcome is the semantic outcome: equal values on success,
/// matching errors on failure.
pub open spec fn res_matches(r: Result<Value, Error>, res: Result<ValueV, RunErrV>) -> bool {
    match (r, res) {
        (Ok(v), Ok(vv)) => v.deep() == vv,
        (Err(e), Err(ev)) => run_err_matches(e, ev),
        _ => false,
    }
}

/// The executed outcome of a statement is the semantic outcome.
pub open spec fn stmt_res_matches(r: Result<(), Error>, res: Option<RunErrV>) -> bool {
    match (r, res) {
        (Ok(u), None) => true,
        (Err(e), Some(ev)) => run_err_matches(e, ev),
        _ => false,
    }
}

/// The tree-walking evaluator: the arena of every environment record
/// created so far, and the index of the currently active record. Records
/// are never freed while a run lasts, so closures stay valid.
pub struct Evaluator {
    pub envs: Vec<Environment>,
    pub env: usize,
}

impl Evaluator {
    /// The views of all environment records.
    pub open spec fn arena(&self) -> Seq<EnvV> {
        deep_envs(self.envs@)
    }

    /// The evaluator can run: the arena is well formed and the active
    /// index lies inside it.
    pub open spec fn wf(&self) -> bool {
        &&& envs_wf(self.arena())
        &&& self.env < self.envs@.len()
    }

    /// A fresh evaluator: one root environment, which is active.
    pub fn new() -> (r: Self)
        ensures
            r.wf(),
            r.env == 0,
            r.arena() == seq![
                EnvV { vals: Map::<Seq<char>, ValueV>::empty(), parent: None::<int> },
            ],
    {
        let mut envs: Vec<Environment> = Vec::new();
        envs.push(Environment::new());
        let r = Evaluator { envs, env: 0 };
        proof {
            assert(r.arena() =~= seq![
                EnvV { vals: Map::<Seq<char>, ValueV>::empty(), parent: None::<int> },
            ]);
        }
        r
    }

    /// Creates or overwrites a binding in the currently active record.
    fn define_in_current(&mut self, name: String, value: Value)
        requires
            old(self).wf(),
            value_wf(value.deep(), old(self).envs@.len() as int),
        ensures
            final(self).wf(),
            final(self).env == old(self).env,
            final(self).envs@.len() == old(self).envs@.len(),
            final(self).arena() == env_define(
                old(self).arena(),
                old(self).env as int,
                name@,
                value.deep(),
            ),
    {
        proof {
            lemma_env_define_wf(self.arena(), self.env as int, name@, value.deep());
            assert(self.arena()[self.env as int] == self.envs@[self.env as int].deep());
        }
        let e = self.env;
        let ghost pre = self.envs@;
        let mut env = self.envs.remove(e);
        env.define(name, value);
        self.envs.insert(e, env);
        proof {
            assert(self.envs@ =~= pre.update(e as int, self.envs@[e as int]));
            assert(deep_envs(self.envs@) =~= env_define(
                deep_envs(pre),
                e as int,
                name@,
                value.deep(),
            ));
        }
    }

    /// Applies a binary operator to two evaluated operands, as the
    /// semantics' operator table says; an error carries the given span.
    fn eval_binary_op(&mut self, op: &BinaryOp, lhs: Value, rhs: Value, span: Span) -> (r: Result<
        Value,
        Error,
    >)
        ensures
            *final(self) == *old(self),
            ({
                let res = eval_binop(*op, lhs.deep(), rhs.deep());
                match (r, res) {
                    (Ok(v), Ok(vv)) => v.deep() == vv && !(vv matches ValueV::Fn(_)),
                    (Err(e), Err(ev)) => e.span == span && kind_matches(e.kind, ev),
                    _ => false,
                }
            }),
    {
        match (op, lhs, rhs) {
            (BinaryOp::Add, Value::Int(a), Value::Int(b)) => Ok(Value::Int(a.wrapping_add(b))),
            (BinaryOp::Subtract, Value::Int(a), Value::Int(b)) => Ok(
                Value::Int(a.wrapping_sub(b)),
            ),
            (BinaryOp::Multiply, Value::Int(a), Value::Int(b)) => Ok(
                Value::Int(a.wrapping_mul(b)),
            ),
            (BinaryOp::Divide, Value::Int(a), Value::Int(b)) => {
                if b == 0 {
                    Err(error(span, ErrorKind::DivisionByZero))
                } else if a == i64::MIN && b == -1 {
                    Ok(Value::Int(i64::MIN))
                } else {
                    // divide the magnitudes; the sign comes back at the end
                    let neg = (a < 0) != (b < 0);
                    let ua = abs_u64(a);
                    let ub = abs_u64(b);
                    let uq = ua / ub;
                    proof {
                        vstd::arithmetic::div_mod::lemma_div_pos_is_pos(ua as int, ub as int);
                        vstd::arithmetic::div_mod::lemma_div_nonincreasing(ua as int, ub as int);
                    }
                    if neg {
                        if uq >= 0x8000_0000_0000_0000u64 {
                            proof {
                                assert(uq == 0x8000_0000_0000_0000u64);
                            }
                            Ok(Value::Int(i64::MIN))
                        } else {
                            Ok(Value::Int(-(uq as i64)))
                        }
                    } else {
                        proof {
                            if b == 1 || b == -1 {
                                assert(ub == 1);
                                assert(ua as int / 1 == ua as int);
                            } else {
                                assert(ub >= 2);
                                vstd::arithmetic::div_mod::lemma_div_is_ordered_by_denominator(
                                    ua as int,
                                    2,
                                    ub as int,
                                );
                                vstd::arithmetic::div_mod::lemma_div_is_ordered(
                                    ua as int,
                                    0x8000_0000_0000_0000,
                                    2,
                                );
                            }
                        }
                        Ok(Value::Int(uq as i64))
                    }
                }
            },
            (BinaryOp::Or, Value::Bool(a), Value::Bool(b)) => Ok(Value::Bool(a || b)),
            (BinaryOp::And, Value::Bool(a), Value::Bool(b)) => Ok(Value::Bool(a && b)),
            (BinaryOp::Equal, Value::Int(a), Value::Int(b)) => Ok(Value::Bool(a == b)),
            (BinaryOp::NotEqual, Value::Int(a), Value::Int(b)) => Ok(Value::Bool(a != b)),
            (BinaryOp::LessThan, Value::Int(a), Value::Int(b)) => Ok(Value::Bool(a < b)),
            (BinaryOp::LessOrEqual, Value::Int(a), Value::Int(b)) => Ok(Value::Bool(a <= b)),
            (BinaryOp::GreaterThan, Value::Int(a), Value::Int(b)) => Ok(Value::Bool(a > b)),
            (BinaryOp::GreaterOrEqual, Value::Int(a), Value::Int(b)) => Ok(Value::Bool(a >= b)),
            (_, l, r2) => Err(
                error(
                    span,
                    ErrorKind::UnsupportedOperation { op: *op, lhs: l.kind(), rhs: r2.kind() },
                ),
            ),
        }
    }
}

impl Evaluator {
    /// Runs one statement in the active environment.
    fn eval_stmt(&mut self, fuel: u64, stmt: &Stmt) -> (r: Result<(), Error>)
        requires
            old(self).wf(),
        ensures
            final(self).wf(),
            final(self).env == old(self).env,
            final(self).envs@.len() >= old(self).envs@.len(),
            ({
                let (envs2, res) = eval_stmt_v(
                    fuel as nat,
                    old(self).arena(),
                    old(self).env as int,
                    stmt.deep(),
                );
                final(self).arena() == envs2 && stmt_res_matches(r, res)
            }),
        decreases fuel, size_stmt_v(stmt.deep()), 0int,
    {
        match stmt {
            Stmt::Fn(f) => {
                let name = f.name.clone();
                let fv = FunctionValue {
                    name: f.name.clone(),
                    params: clone_strings(&f.params),
                    body: f.body.clone(),
                    closure: self.env,
                };
                let function = Value::Function(Rc::new(fv));
                proof {
                    assert(function.deep() == ValueV::Fn(
                        FnV {
                            name: f.name@,
                            params: deep_params(f.params@),
                            body: f.body.deep(),
                            closure: self.env as int,
                        },
                    ));
                }
                self.define_in_current(name, function);
                Ok(())
            },
            Stmt::Let(l) => {
                let val = match self.eval_expr(fuel, &l.value) {
                    Ok(v) => v,
                    Err(e) => {
                        return Err(e);
                    },
                };
                let name = l.name.clone();
                self.define_in_current(name, val);
                Ok(())
            },
            Stmt::Expr(e) => {
                match self.eval_expr(fuel, e) {
                    Ok(_) => Ok(()),
                    Err(er) => Err(er),
                }
            },
        }
    }

    /// Runs a block: a fresh child environment is active for its
    /// statements and tail, and the previously active environment is
    /// restored afterwards whether the block succeeds or fails.
    #[verifier::loop_isolation(false)]
    fn eval_block(&mut self, fuel: u64, block: &Block) -> (r: Result<Value, Error>)
        requires
            old(self).wf(),
        ensures
            final(self).wf(),
            final(self).env == old(self).env,
            final(self).envs@.len() >= old(self).envs@.len(),
            ({
                let (envs2, res) = eval_block_v(
                    fuel as nat,
                    old(self).arena(),
                    old(self).env as int,
                    block.deep(),
                );
                final(self).arena() == envs2 && res_matches(r, res)
            }),
            r matches Ok(v) ==> value_wf(v.deep(), final(self).envs@.len() as int),
        decreases fuel, size_block_v(block.deep()), 0int,
    {
        let ghost arena0 = self.arena();
        let ghost cur = self.env as int;
        let ghost n = self.envs@.len() as int;
        let ghost child = EnvV { vals: Map::<Seq<char>, ValueV>::empty(), parent: Some(cur) };
        proof {
            lemma_deep_stmts_index(block.body@);
            lemma_envs_wf_push(arena0, child);
        }
        let outer_env = self.env;
        let inner = Environment::extend(self.env);
        self.envs.push(inner);
        proof {
            assert(self.arena() =~= arena0.push(child));
        }
        self.env = self.envs.len() - 1;
        let ghost arena1 = self.arena();
        let ghost stmtsV = deep_stmts(block.body@);
        proof {
            assert(stmtsV.subrange(0, stmtsV.len() as int) =~= stmtsV);
        }
        let mut i: usize = 0;
        while i < block.body.len()
            invariant
                self.wf(),
                self.env as int == n,
                self.envs@.len() >= n + 1,
                i <= block.body@.len(),
                eval_stmts_v(fuel as nat, arena1, n, stmtsV) == eval_stmts_v(
                    fuel as nat,
                    self.arena(),
                    n,
                    stmtsV.subrange(i as int, stmtsV.len() as int),
                ),
            decreases block.body@.len() - i,
        {
            proof {
                lemma_size_stmts_index(stmtsV, i as int);
                assert(stmtsV.subrange(i as int, stmtsV.len() as int)[0] == stmtsV[i as int]);
                assert(stmtsV[i as int] == block.body@[i as int].deep());
            }
            match self.eval_stmt(fuel, &block.body[i]) {
                Ok(_) => {},
                Err(e) => {
                    self.env = outer_env;
                    return Err(e);
                },
            }
            proof {
                assert(stmtsV.subrange(i as int, stmtsV.len() as int).subrange(
                    1,
                    stmtsV.len() - i,
                ) =~= stmtsV.subrange(i + 1, stmtsV.len() as int));
            }
            i = i + 1;
        }
        proof {
            assert(stmtsV.subrange(stmtsV.len() as int, stmtsV.len() as int)
                =~= Seq::<StmtV>::empty());
        }
        let result = match &block.tail {
            Some(te) => self.eval_expr(fuel, te),
            None => Ok(Value::NoValue),
        };
        self.env = outer_env;
        result
    }

    /// Applies a callee to evaluated arguments: anything but a function
    /// fails as not callable; a function demands exactly as many arguments
    /// as parameters, else the call fails naming both counts; the body
    /// then runs in a fresh environment over the captured closure
    /// environment (lexical, not dynamic, scoping), and the caller's
    /// active environment is restored afterwards.
    #[verifier::loop_isolation(false)]
    fn call_function(&mut self, fuel: u64, callee: Value, args: Vec<Value>) -> (r: Result<
        Value,
        Error,
    >)
        requires
            old(self).wf(),
            value_wf(callee.deep(), old(self).envs@.len() as int),
            forall|j: int|
                0 <= j < args@.len() ==> value_wf(
                    #[trigger] args@[j].deep(),
                    old(self).envs@.len() as int,
                ),
        ensures
            final(self).wf(),
            final(self).env == old(self).env,
            final(self).envs@.len() >= old(self).envs@.len(),
            ({
                let (envs2, res) = call_v(
                    fuel as nat,
                    old(self).arena(),
                    callee.deep(),
                    deep_values(args@),
                );
                final(self).arena() == envs2 && res_matches(r, res)
            }),
            r matches Ok(v) ==> value_wf(v.deep(), final(self).envs@.len() as int),
            ({
                match callee.deep() {
                    ValueV::Fn(f) => args@.len() != f.params.len() ==> (r matches Err(e) && (
                    e.kind matches ErrorKind::ArityMismatch { expected, actual } && expected
                        == f.params.len() && actual == args@.len())),
                    _ => true,
                }
            }),
        decreases fuel, 0int, 0int,
    {
        let ghost arena0 = self.arena();
        match callee {
            Value::Function(func) => {
                if args.len() != func.params.len() {
                    return Err(
                        error(
                            Span::empty(),
                            ErrorKind::ArityMismatch {
                                expected: func.params.len(),
                                actual: args.len(),
                            },
                        ),
                    );
                }
                if fuel == 0 {
                    return Err(error(Span::empty(), ErrorKind::OutOfFuel));
                }
                let ghost paramsV = deep_params(func.params@);
                let ghost argsV = deep_values(args@);
                let mut func_env = Environment::extend(func.closure);
                proof {
                    assert(paramsV.subrange(0, 0) =~= Seq::<Seq<char>>::empty());
                    assert(argsV.subrange(0, 0) =~= Seq::<ValueV>::empty());
                }
                let mut i: usize = 0;
                while i < func.params.len()
                    invariant
                        i <= func.params@.len(),
                        func_env.deep().parent == Some(func.closure as int),
                        func_env.deep().vals == bind_params(
                            paramsV.subrange(0, i as int),
                            argsV.subrange(0, i as int),
                        ),
                    decreases func.params@.len() - i,
                {
                    proof {
                        assert(paramsV.subrange(0, i + 1).drop_last() =~= paramsV.subrange(
                            0,
                            i as int,
                        ));
                        assert(argsV.subrange(0, i + 1).drop_last() =~= argsV.subrange(
                            0,
                            i as int,
                        ));
                        assert(paramsV.subrange(0, i + 1).last() == paramsV[i as int]);
                        assert(argsV.subrange(0, i + 1).last() == argsV[i as int]);
                        assert(paramsV[i as int] == func.params@[i as int]@);
                        assert(argsV[i as int] == args@[i as int].deep());
                    }
                    func_env.define(func.params[i].clone(), args[i].clone());
                    i = i + 1;
                }
                proof {
                    assert(paramsV.subrange(0, paramsV.len() as int) =~= paramsV);
                    assert(argsV.subrange(0, argsV.len() as int) =~= argsV);
                    lemma_bind_params_wf(paramsV, argsV, arena0.len() as int);
                    assert forall|j: int| 0 <= j < argsV.len() implies value_wf(
                        #[trigger] argsV[j],
                        arena0.len() as int,
                    ) by {
                        assert(argsV[j] == args@[j].deep());
                    }
                    lemma_envs_wf_push(arena0, func_env.deep());
                }
                let outer_env = self.env;
                self.envs.push(func_env);
                proof {
                    assert(self.arena() =~= arena0.push(
                        EnvV { vals: bind_params(paramsV, argsV), parent: Some(func.closure as int) },
                    ));
                }
                self.env = self.envs.len() - 1;
                let result = self.eval_block(fuel - 1, &func.body);
                self.env = outer_env;
                result
            },
            other => Err(error(Span::empty(), ErrorKind::NotCallable { kind: other.kind() })),
        }
    }

    /// Evaluates one expression against the active environment, exactly as
    /// the semantics says.
    #[verifier::loop_isolation(false)]
    fn eval_expr(&mut self, fuel: u64, expr: &Expr) -> (r: Result<Value, Error>)
        requires
            old(self).wf(),
        ensures
            final(self).wf(),
            final(self).env == old(self).env,
            final(self).envs@.len() >= old(self).envs@.len(),
            ({
                let (envs2, res) = eval_expr_v(
                    fuel as nat,
                    old(self).arena(),
                    old(self).env as int,
                    expr.deep(),
                );
                final(self).arena() == envs2 && res_matches(r, res)
            }),
            r matches Ok(v) ==> value_wf(v.deep(), final(self).envs@.len() as int),
        decreases fuel, size_expr_v(expr.deep()), 1int,
    {
        let ghost cur = self.env as int;
        let ghost arena0 = self.arena();
        match expr {
            Expr::Int(i) => Ok(Value::Int(i.value)),
            Expr::Str(st) => Ok(Value::Str(st.value.clone())),
            Expr::Identifier(ident) => {
                proof {
                    lemma_lookup_wf(arena0, cur, ident.name@);
                }
                match Environment::get(&self.envs, self.env, &ident.name) {
                    Some(v) => Ok(v),
                    None => Err(
                        error(
                            Span::empty(),
                            ErrorKind::UndefinedVariable { name: ident.name.clone() },
                        ),
                    ),
                }
            },
            Expr::Binary(b) => {
                let lhs = match self.eval_expr(fuel, &b.lhs) {
                    Ok(v) => v,
                    Err(e) => {
                        return Err(e);
                    },
                };
                let rhs = match self.eval_expr(fuel, &b.rhs) {
                    Ok(v) => v,
                    Err(e) => {
                        return Err(e);
                    },
                };
                self.eval_binary_op(&b.op, lhs, rhs, Span::empty())
            },
            Expr::Unary(u) => {
                let val = match self.eval_expr(fuel, &u.rhs) {
                    Ok(v) => v,
                    Err(e) => {
                        return Err(e);
                    },
                };
                match (&u.op, &val) {
                    (UnaryOp::Minus, Value::Int(i)) => {
                        if *i == i64::MIN {
                            Ok(Value::Int(i64::MIN))
                        } else {
                            Ok(Value::Int(-*i))
                        }
                    },
                    (UnaryOp::Not, Value::Bool(b)) => Ok(Value::Bool(!*b)),
                    (UnaryOp::Not, _) => Ok(Value::Bool(!val.is_truthy())),
                    (UnaryOp::Minus, _) => Err(
                        error(
                            Span::empty(),
                            ErrorKind::InvalidUnaryApplication { op: u.op, operand: val.kind() },
                        ),
                    ),
                }
            },
            Expr::Block(b) => self.eval_block(fuel, b),
            Expr::If(expr_if) => {
                proof {
                    lemma_deep_branches_index(expr_if.branches@);
                }
                let ghost branchesV = deep_branches(expr_if.branches@);
                let ghost elsV: Option<Box<BlockV>> = match &expr_if.tail {
                    Some(bl) => Some(Box::new(bl.deep())),
                    None => None,
                };
                proof {
                    assert(branchesV.subrange(0, branchesV.len() as int) =~= branchesV);
                }
                let mut i: usize = 0;
                while i < expr_if.branches.len()
                    invariant
                        self.wf(),
                        self.env as int == cur,
                        self.envs@.len() >= arena0.len(),
                        i <= expr_if.branches@.len(),
                        eval_branches_v(fuel as nat, arena0, cur, branchesV, elsV)
                            == eval_branches_v(
                            fuel as nat,
                            self.arena(),
                            cur,
                            branchesV.subrange(i as int, branchesV.len() as int),
                            elsV,
                        ),
                    decreases expr_if.branches@.len() - i,
                {
                    proof {
                        lemma_size_branches_index(branchesV, i as int);
                        assert(branchesV.subrange(i as int, branchesV.len() as int)[0]
                            == branchesV[i as int]);
                        assert(branchesV[i as int] == expr_if.branches@[i as int].deep());
                    }
                    let branch = &expr_if.branches[i];
                    let cond = match self.eval_expr(fuel, &branch.cond) {
                        Ok(v) => v,
                        Err(e) => {
                            return Err(e);
                        },
                    };
                    if cond.is_truthy() {
                        return self.eval_block(fuel, &branch.body);
                    }
                    proof {
                        assert(branchesV.subrange(i as int, branchesV.len() as int).subrange(
                            1,
                            branchesV.len() - i,
                        ) =~= branchesV.subrange(i + 1, branchesV.len() as int));
                    }
                    i = i + 1;
                }
                proof {
                    assert(branchesV.subrange(branchesV.len() as int, branchesV.len() as int)
                        =~= Seq::<BranchV>::empty());
                }
                match &expr_if.tail {
                    Some(else_block) => {
                        proof {
                            assert(expr.deep() == ExprV::If {
                                branches: branchesV,
                                els: Some(Box::new(else_block.deep())),
                            });
                            assert(size_opt_block(Some(Box::new(else_block.deep()))) == 1
                                + size_block_v(else_block.deep()));
                        }
                        self.eval_block(fuel, else_block)
                    },
                    None => Ok(Value::NoValue),
                }
            },
            Expr::Call(call) => {
                let callee = match self.eval_expr(fuel, &call.callee) {
                    Ok(v) => v,
                    Err(e) => {
                        return Err(e);
                    },
                };
                proof {
                    lemma_deep_exprs_index(call.args@);
                }
                let ghost argsV = deep_exprs(call.args@);
                let ghost arena_a = self.arena();
                proof {
                    assert(argsV.subrange(0, argsV.len() as int) =~= argsV);
                    assert(deep_values(Seq::<Value>::empty()) =~= Seq::<ValueV>::empty());
                }
                let mut args: Vec<Value> = Vec::new();
                let mut i: usize = 0;
                while i < call.args.len()
                    invariant
                        self.wf(),
                        self.env as int == cur,
                        self.envs@.len() >= arena_a.len(),
                        i <= call.args@.len(),
                        args@.len() == i,
                        value_wf(callee.deep(), self.envs@.len() as int),
                        forall|j: int|
                            0 <= j < i ==> value_wf(
                                #[trigger] args@[j].deep(),
                                self.envs@.len() as int,
                            ),
                        ({
                            let (e2, r2) = eval_exprs_v(
                                fuel as nat,
                                self.arena(),
                                cur,
                                argsV.subrange(i as int, argsV.len() as int),
                            );
                            eval_exprs_v(fuel as nat, arena_a, cur, argsV) == (
                                e2,
                                match r2 {
                                    Ok(vs) => Ok::<Seq<ValueV>, RunErrV>(deep_values(args@) + vs),
                                    Err(er) => Err(er),
                                },
                            )
                        }),
                    decreases call.args@.len() - i,
                {
                    proof {
                        lemma_size_exprs_index(argsV, i as int);
                        assert(argsV.subrange(i as int, argsV.len() as int)[0] == argsV[i as int]);
                        assert(argsV[i as int] == call.args@[i as int].deep());
                    }
                    let ghost args_pre = args@;
                    let a = match self.eval_expr(fuel, &call.args[i]) {
                        Ok(v) => v,
                        Err(e) => {
                            return Err(e);
                        },
                    };
                    args.push(a);
                    proof {
                        assert(args@ =~= args_pre.push(a));
                        assert(deep_values(args@) =~= deep_values(args_pre).push(a.deep()));
                        assert(argsV.subrange(i as int, argsV.len() as int).subrange(
                            1,
                            argsV.len() - i,
                        ) =~= argsV.subrange(i + 1, argsV.len() as int));
                        assert forall|vs: Seq<ValueV>| true implies deep_values(args_pre) + (
                        seq![a.deep()] + vs) =~= deep_values(args@) + vs by {}
                    }
                    i = i + 1;
                }
                proof {
                    assert(argsV.subrange(argsV.len() as int, argsV.len() as int)
                        =~= Seq::<ExprV>::empty());
                    assert(deep_values(args@) + Seq::<ValueV>::empty() =~= deep_values(args@));
                }
                self.call_function(fuel, callee, args)
            },
        }
    }

    /// Runs a whole program against the active environment: its statements
    /// in order, then the tail expression for the program's value, or no
    /// value without a tail. Function calls may nest to a depth the
    /// machine's integers count, after which evaluation stops with an
    /// error rather than recursing forever.
    #[verifier::loop_isolation(false)]
    pub fn eval_program(&mut self, program: Program) -> (r: Result<Value, Error>)
        requires
            old(self).wf(),
        ensures
            final(self).wf(),
            final(self).env == old(self).env,
            ({
                let (envs2, res) = eval_program_v(
                    u64::MAX as nat,
                    old(self).arena(),
                    old(self).env as int,
                    program.deep(),
                );
                final(self).arena() == envs2 && res_matches(r, res)
            }),
    {
        let fuel: u64 = u64::MAX;
        let ghost cur = self.env as int;
        let ghost arena0 = self.arena();
        let ghost stmtsV = deep_stmts(program.body@);
        proof {
            lemma_deep_stmts_index(program.body@);
            assert(stmtsV.subrange(0, stmtsV.len() as int) =~= stmtsV);
        }
        let mut i: usize = 0;
        while i < program.body.len()
            invariant
                self.wf(),
                self.env as int == cur,
                self.envs@.len() >= arena0.len(),
                i <= program.body@.len(),
                eval_stmts_v(fuel as nat, arena0, cur, stmtsV) == eval_stmts_v(
                    fuel as nat,
                    self.arena(),
                    cur,
                    stmtsV.subrange(i as int, stmtsV.len() as int),
                ),
            decreases program.body@.len() - i,
        {
            proof {
                assert(stmtsV.subrange(i as int, stmtsV.len() as int)[0] == stmtsV[i as int]);
                assert(stmtsV[i as int] == program.body@[i as int].deep());
            }
            match self.eval_stmt(fuel, &program.body[i]) {
                Ok(_) => {},
                Err(e) => {
                    return Err(e);
                },
            }
            proof {
                assert(stmtsV.subrange(i as int, stmtsV.len() as int).subrange(
                    1,
                    stmtsV.len() - i,
                ) =~= stmtsV.subrange(i + 1, stmtsV.len() as int));
            }
            i = i + 1;
        }
        proof {
            assert(stmtsV.subrange(stmtsV.len() as int, stmtsV.len() as int)
                =~= Seq::<StmtV>::empty());
        }
        match &program.tail {
            Some(te) => self.eval_expr(fuel, te),
            None => Ok(Value::NoValue),
        }
    }
}

} // verus!
