use vstd::prelude::*;

use crate::ast::{BinaryOp, BlockV, BranchV, ExprV, ProgramV, StmtV, UnaryOp};
use crate::eval::ValueKind;

verus! {

/// The mathematical shape of a function value: its name, parameters and
/// body, and the arena index of the environment it closed over.
pub struct FnV {
    pub name: Seq<char>,
    pub params: Seq<Seq<char>>,
    pub body: BlockV,
    pub closure: int,
}

/// The mathematical shape of a runtime value.
pub enum ValueV {
    Int(i64),
    Str(Seq<char>),
    Bool(bool),
    Fn(FnV),
    NoValue,
}

/// The mathematical shape of one environment record: its bindings and the
/// arena index of its parent, when it has one.
pub struct EnvV {
    pub vals: Map<Seq<char>, ValueV>,
    pub parent: Option<int>,
}

/// The shapes a runtime failure can take.
pub enum RunErrV {
    UndefinedVariable(Seq<char>),
    UnsupportedOperation { op: BinaryOp, lhs: ValueKind, rhs: ValueKind },
    InvalidUnaryApplication { op: UnaryOp, operand: ValueKind },
    ArityMismatch { expected: int, actual: int },
    NotCallable(ValueKind),
    DivisionByZero,
    OutOfFuel,
}

/// Any function value a record holds closes over a record inside the arena.
pub open spec fn value_wf(v: ValueV, n: int) -> bool {
    match v {
        ValueV::Fn(f) => 0 <= f.closure < n,
        _ => true,
    }
}

/// A record's parent was created before it, and its values are closed
/// inside an arena of length `n`.
pub open spec fn env_wf(e: EnvV, i: int, n: int) -> bool {
    &&& match e.parent {
        Some(p) => 0 <= p < i,
        None => true,
    }
    &&& forall|k: Seq<char>| #[trigger] e.vals.dom().contains(k) ==> value_wf(e.vals[k], n)
}

/// Every record of the arena is well formed at its own index.
pub open spec fn envs_wf(es: Seq<EnvV>) -> bool {
    forall|i: int| 0 <= i < es.len() ==> env_wf(#[trigger] es[i], i, es.len() as int)
}

/// Truthiness: booleans by themselves, integers by being non-zero, strings
/// by being non-empty, the no-value by falsehood, functions by truth.
pub open spec fn truthy(v: ValueV) -> bool {
    match v {
        ValueV::Bool(b) => b,
        ValueV::Int(i) => i != 0,
        ValueV::Str(s) => s.len() > 0,
        ValueV::NoValue => false,
        ValueV::Fn(_) => true,
    }
}

/// The runtime classification of a value.
pub open spec fn kind_of(v: ValueV) -> ValueKind {
    match v {
        ValueV::Bool(_) => ValueKind::Bool,
        ValueV::Int(_) => ValueKind::Int,
        ValueV::Str(_) => ValueKind::Str,
        ValueV::Fn(_) => ValueKind::Function,
        ValueV::NoValue => ValueKind::NoValue,
    }
}

/// An integer's magnitude.
pub open spec fn abs_i64(a: i64) -> int {
    if a < 0 {
        -(a as int)
    } else {
        a as int
    }
}

/// Division truncated toward zero, as the machine's signed division does
/// it: the magnitudes are divided and the quotient takes the sign of the
/// operands' product. The one overflowing pair wraps.
pub open spec fn div_trunc(a: i64, b: i64) -> i64
    recommends
        b != 0,
{
    if a == i64::MIN && b == -1 {
        i64::MIN
    } else {
        let uq = abs_i64(a) / abs_i64(b);
        if (a < 0) != (b < 0) {
            (-uq) as i64
        } else {
            uq as i64
        }
    }
}

/// Negation, wrapping on the one overflowing operand.
pub open spec fn neg_wrap(a: i64) -> i64 {
    if a == i64::MIN {
        i64::MIN
    } else {
        (-a) as i64
    }
}

/// What a binary operator yields on two evaluated operands: arithmetic and
/// comparisons on integers (arithmetic wraps, division by zero fails),
/// `&&`/`||` on booleans, everything else an unsupported operation.
pub open spec fn eval_binop(op: BinaryOp, l: ValueV, r: ValueV) -> Result<ValueV, RunErrV> {
    match (op, l, r) {
        (BinaryOp::Add, ValueV::Int(a), ValueV::Int(b)) => Ok(
            ValueV::Int(vstd::wrapping::i64_specs::wrapping_add(a, b)),
        ),
        (BinaryOp::Subtract, ValueV::Int(a), ValueV::Int(b)) => Ok(
            ValueV::Int(vstd::wrapping::i64_specs::wrapping_sub(a, b)),
        ),
        (BinaryOp::Multiply, ValueV::Int(a), ValueV::Int(b)) => Ok(
            ValueV::Int(vstd::wrapping::i64_specs::wrapping_mul(a, b)),
        ),
        (BinaryOp::Divide, ValueV::Int(a), ValueV::Int(b)) => if b == 0 {
            Err(RunErrV::DivisionByZero)
        } else {
            Ok(ValueV::Int(div_trunc(a, b)))
        },
        (BinaryOp::Or, ValueV::Bool(a), ValueV::Bool(b)) => Ok(ValueV::Bool(a || b)),
        (BinaryOp::And, ValueV::Bool(a), ValueV::Bool(b)) => Ok(ValueV::Bool(a && b)),
        (BinaryOp::Equal, ValueV::Int(a), ValueV::Int(b)) => Ok(ValueV::Bool(a == b)),
        (BinaryOp::NotEqual, ValueV::Int(a), ValueV::Int(b)) => Ok(ValueV::Bool(a != b)),
        (BinaryOp::LessThan, ValueV::Int(a), ValueV::Int(b)) => Ok(ValueV::Bool(a < b)),
        (BinaryOp::LessOrEqual, ValueV::Int(a), ValueV::Int(b)) => Ok(ValueV::Bool(a <= b)),
        (BinaryOp::GreaterThan, ValueV::Int(a), ValueV::Int(b)) => Ok(ValueV::Bool(a > b)),
        (BinaryOp::GreaterOrEqual, ValueV::Int(a), ValueV::Int(b)) => Ok(ValueV::Bool(a >= b)),
        _ => Err(RunErrV::UnsupportedOperation { op, lhs: kind_of(l), rhs: kind_of(r) }),
    }
}

/// What a unary operator yields on an evaluated operand: negation on
/// integers only; `!` on any value through truthiness.
pub open spec fn eval_unop(op: UnaryOp, v: ValueV) -> Result<ValueV, RunErrV> {
    match (op, v) {
        (UnaryOp::Minus, ValueV::Int(i)) => Ok(ValueV::Int(neg_wrap(i))),
        (UnaryOp::Not, ValueV::Bool(b)) => Ok(ValueV::Bool(!b)),
        (UnaryOp::Not, w) => Ok(ValueV::Bool(!truthy(w))),
        (UnaryOp::Minus, w) => Err(
            RunErrV::InvalidUnaryApplication { op, operand: kind_of(w) },
        ),
    }
}

/// Resolves a name through the chained environments, innermost first.
pub open spec fn lookup(envs: Seq<EnvV>, e: int, name: Seq<char>) -> Option<ValueV>
    decreases (if 0 <= e < envs.len() { e } else { 0 }),
{
    if !(0 <= e < envs.len()) {
        None
    } else if envs[e].vals.dom().contains(name) {
        Some(envs[e].vals[name])
    } else {
        match envs[e].parent {
            Some(p) => if 0 <= p < e {
                lookup(envs, p, name)
            } else {
                None
            },
            None => None,
        }
    }
}

/// Creates or overwrites a binding in the record at index `cur`.
pub open spec fn env_define(envs: Seq<EnvV>, cur: int, name: Seq<char>, v: ValueV) -> Seq<EnvV> {
    envs.update(
        cur,
        EnvV { vals: envs[cur].vals.insert(name, v), parent: envs[cur].parent },
    )
}

/// Binds parameter names to argument values, position by position; on a
/// repeated name the later position wins.
pub open spec fn bind_params(params: Seq<Seq<char>>, args: Seq<ValueV>) -> Map<Seq<char>, ValueV>
    decreases params.len(),
{
    if params.len() == 0 || args.len() == 0 {
        Map::empty()
    } else {
        bind_params(params.drop_last(), args.drop_last()).insert(params.last(), args.last())
    }
}

pub open spec fn size_stmts_v(ss: Seq<StmtV>) -> nat
    decreases ss,
{
    if ss.len() == 0 {
        0
    } else {
        1 + size_stmt_v(ss[0]) + size_stmts_v(ss.subrange(1, ss.len() as int))
    }
}

pub open spec fn size_exprs_v(es: Seq<ExprV>) -> nat
    decreases es,
{
    if es.len() == 0 {
        0
    } else {
        1 + size_expr_v(es[0]) + size_exprs_v(es.subrange(1, es.len() as int))
    }
}

pub open spec fn size_branches_v(bs: Seq<BranchV>) -> nat
    decreases bs,
{
    if bs.len() == 0 {
        0
    } else {
        1 + size_expr_v(bs[0].cond) + size_block_v(bs[0].body) + size_branches_v(
            bs.subrange(1, bs.len() as int),
        )
    }
}

pub open spec fn size_opt_expr(oe: Option<ExprV>) -> nat
    decreases oe,
{
    match oe {
        Some(e) => 1 + size_expr_v(e),
        None => 0,
    }
}

pub open spec fn size_opt_block(ob: Option<Box<BlockV>>) -> nat
    decreases ob,
{
    match ob {
        Some(b) => 1 + size_block_v(*b),
        None => 0,
    }
}

pub open spec fn size_block_v(b: BlockV) -> nat
    decreases b,
{
    1 + size_stmts_v(b.body) + size_opt_expr(b.tail)
}

pub open spec fn size_stmt_v(s: StmtV) -> nat
    decreases s,
{
    match s {
        StmtV::Fn { name, params, body } => 1 + size_block_v(body),
        StmtV::Let { name, value } => 1 + size_expr_v(value),
        StmtV::Expr(e) => 1 + size_expr_v(e),
    }
}

pub open spec fn size_expr_v(e: ExprV) -> nat
    decreases e,
{
    match e {
        ExprV::If { branches, els } => 1 + size_branches_v(branches) + size_opt_block(els),
        ExprV::Block(b) => 1 + size_block_v(*b),
        ExprV::Str(_) => 1,
        ExprV::Int(_) => 1,
        ExprV::Ident(_) => 1,
        ExprV::Call { callee, args } => 1 + size_expr_v(*callee) + size_exprs_v(args),
        ExprV::Binary { op, lhs, rhs } => 1 + size_expr_v(*lhs) + size_expr_v(*rhs),
        ExprV::Unary { op, rhs } => 1 + size_expr_v(*rhs),
    }
}

/// Evaluates one expression: the new arena and the value or error. The
/// fuel bounds the depth of function calls; every other rule is structural.
pub open spec fn eval_expr_v(fuel: nat, envs: Seq<EnvV>, cur: int, e: ExprV) -> (Seq<EnvV>, Result<
    ValueV,
    RunErrV,
>)
    decreases fuel, size_expr_v(e), 1int,
{
    match e {
        ExprV::Int(i) => (envs, Ok(ValueV::Int(i))),
        ExprV::Str(s) => (envs, Ok(ValueV::Str(s))),
        ExprV::Ident(n) => (
            envs,
            match lookup(envs, cur, n) {
                Some(v) => Ok(v),
                None => Err(RunErrV::UndefinedVariable(n)),
            },
        ),
        ExprV::Binary { op, lhs, rhs } => {
            let (envs1, r1) = eval_expr_v(fuel, envs, cur, *lhs);
            match r1 {
                Err(er) => (envs1, Err(er)),
                Ok(v1) => {
                    let (envs2, r2) = eval_expr_v(fuel, envs1, cur, *rhs);
                    match r2 {
                        Err(er) => (envs2, Err(er)),
                        Ok(v2) => (envs2, eval_binop(op, v1, v2)),
                    }
                },
            }
        },
        ExprV::Unary { op, rhs } => {
            let (envs1, r1) = eval_expr_v(fuel, envs, cur, *rhs);
            match r1 {
                Err(er) => (envs1, Err(er)),
                Ok(v) => (envs1, eval_unop(op, v)),
            }
        },
        ExprV::Block(b) => eval_block_v(fuel, envs, cur, *b),
        ExprV::If { branches, els } => eval_branches_v(fuel, envs, cur, branches, els),
        ExprV::Call { callee, args } => {
            let (envs1, r1) = eval_expr_v(fuel, envs, cur, *callee);
            match r1 {
                Err(er) => (envs1, Err(er)),
                Ok(cv) => {
                    let (envs2, r2) = eval_exprs_v(fuel, envs1, cur, args);
                    match r2 {
                        Err(er) => (envs2, Err(er)),
                        Ok(vs) => call_v(fuel, envs2, cv, vs),
                    }
                },
            }
        },
    }
}

/// Evaluates a sequence of expressions left to right, stopping at the
/// first error.
pub open spec fn eval_exprs_v(fuel: nat, envs: Seq<EnvV>, cur: int, es: Seq<ExprV>) -> (
    Seq<EnvV>,
    Result<Seq<ValueV>, RunErrV>,
)
    decreases fuel, size_exprs_v(es), 1int,
{
    if es.len() == 0 {
        (envs, Ok(Seq::empty()))
    } else {
        let (envs1, r1) = eval_expr_v(fuel, envs, cur, es[0]);
        match r1 {
            Err(er) => (envs1, Err(er)),
            Ok(v) => {
                let (envs2, r2) = eval_exprs_v(fuel, envs1, cur, es.subrange(1, es.len() as int));
                match r2 {
                    Err(er) => (envs2, Err(er)),
                    Ok(vs) => (envs2, Ok(seq![v] + vs)),
                }
            },
        }
    }
}

/// Tries the branches of an `if` in source order: the first truthy
/// condition selects its block; with none, the `else` block or no value.
pub open spec fn eval_branches_v(
    fuel: nat,
    envs: Seq<EnvV>,
    cur: int,
    branches: Seq<BranchV>,
    els: Option<Box<BlockV>>,
) -> (Seq<EnvV>, Result<ValueV, RunErrV>)
    decreases fuel, size_branches_v(branches) + size_opt_block(els), 1int,
{
    if branches.len() == 0 {
        match els {
            Some(b) => eval_block_v(fuel, envs, cur, *b),
            None => (envs, Ok(ValueV::NoValue)),
        }
    } else {
        let (envs1, r1) = eval_expr_v(fuel, envs, cur, branches[0].cond);
        match r1 {
            Err(er) => (envs1, Err(er)),
            Ok(v) => if truthy(v) {
                eval_block_v(fuel, envs1, cur, branches[0].body)
            } else {
                eval_branches_v(fuel, envs1, cur, branches.subrange(1, branches.len() as int), els)
            },
        }
    }
}

/// Applies a callee to argument values: only a function value with exactly
/// as many parameters as arguments proceeds; its body runs in a fresh
/// record bound to the parameters, whose parent is the captured closure
/// record, not the caller's. Entering the body costs one unit of fuel.
pub open spec fn call_v(fuel: nat, envs: Seq<EnvV>, callee: ValueV, args: Seq<ValueV>) -> (
    Seq<EnvV>,
    Result<ValueV, RunErrV>,
)
    decreases fuel, 0int, 0int,
{
    match callee {
        ValueV::Fn(f) => {
            if args.len() != f.params.len() {
                (
                    envs,
                    Err(
                        RunErrV::ArityMismatch {
                            expected: f.params.len() as int,
                            actual: args.len() as int,
                        },
                    ),
                )
            } else if fuel == 0 {
                (envs, Err(RunErrV::OutOfFuel))
            } else {
                let callenv = EnvV { vals: bind_params(f.params, args), parent: Some(f.closure) };
                eval_block_v((fuel - 1) as nat, envs.push(callenv), envs.len() as int, f.body)
            }
        },
        _ => (envs, Err(RunErrV::NotCallable(kind_of(callee)))),
    }
}

/// Runs a block: a fresh child record of the current one is pushed, the
/// statements run inside it in order, and the tail expression evaluated
/// there gives the block's value, or no value without a tail. The child
/// record never becomes current again after the block.
pub open spec fn eval_block_v(fuel: nat, envs: Seq<EnvV>, cur: int, b: BlockV) -> (Seq<EnvV>, Result<
    ValueV,
    RunErrV,
>)
    decreases fuel, size_block_v(b), 0int,
{
    let child = EnvV { vals: Map::empty(), parent: Some(cur) };
    let n = envs.len() as int;
    let (envs1, r1) = eval_stmts_v(fuel, envs.push(child), n, b.body);
    match r1 {
        Some(er) => (envs1, Err(er)),
        None => match b.tail {
            Some(te) => eval_expr_v(fuel, envs1, n, te),
            None => (envs1, Ok(ValueV::NoValue)),
        },
    }
}

/// Runs statements in order, stopping at the first error.
pub open spec fn eval_stmts_v(fuel: nat, envs: Seq<EnvV>, cur: int, ss: Seq<StmtV>) -> (
    Seq<EnvV>,
    Option<RunErrV>,
)
    decreases fuel, size_stmts_v(ss), 1int,
{
    if ss.len() == 0 {
        (envs, None)
    } else {
        let (envs1, r1) = eval_stmt_v(fuel, envs, cur, ss[0]);
        match r1 {
            Some(er) => (envs1, Some(er)),
            None => eval_stmts_v(fuel, envs1, cur, ss.subrange(1, ss.len() as int)),
        }
    }
}

/// Runs one statement. A function declaration builds a function value
/// closing over the record that is current at the declaration, and binds
/// it there; a binding declaration evaluates its right-hand side and binds
/// the name in the innermost record; an expression statement evaluates its
/// expression and discards the value.
pub open spec fn eval_stmt_v(fuel: nat, envs: Seq<EnvV>, cur: int, s: StmtV) -> (
    Seq<EnvV>,
    Option<RunErrV>,
)
    decreases fuel, size_stmt_v(s), 0int,
{
    match s {
        StmtV::Fn { name, params, body } => {
            let fv = ValueV::Fn(FnV { name, params, body, closure: cur });
            (env_define(envs, cur, name, fv), None)
        },
        StmtV::Let { name, value } => {
            let (envs1, r1) = eval_expr_v(fuel, envs, cur, value);
            match r1 {
                Err(er) => (envs1, Some(er)),
                Ok(v) => (env_define(envs1, cur, name, v), None),
            }
        },
        StmtV::Expr(e) => {
            let (envs1, r1) = eval_expr_v(fuel, envs, cur, e);
            (
                envs1,
                match r1 {
                    Err(er) => Some(er),
                    Ok(_) => None,
                },
            )
        },
    }
}

/// Runs a whole program against the arena's current record: its statements
/// in order, then the tail expression for the program's value, or no value
/// without a tail.
pub open spec fn eval_program_v(fuel: nat, envs: Seq<EnvV>, cur: int, p: ProgramV) -> (
    Seq<EnvV>,
    Result<ValueV, RunErrV>,
)
    decreases fuel, size_stmts_v(p.body) + size_opt_expr(p.tail), 2int,
{
    let (envs1, r1) = eval_stmts_v(fuel, envs, cur, p.body);
    match r1 {
        Some(er) => (envs1, Err(er)),
        None => match p.tail {
            Some(te) => eval_expr_v(fuel, envs1, cur, te),
            None => (envs1, Ok(ValueV::NoValue)),
        },
    }
}

/// Walks outward through the parents until the name is found, then
/// overwrites that binding; reports whether any binding was found.
pub open spec fn assign_v(envs: Seq<EnvV>, e: int, name: Seq<char>, v: ValueV) -> (Seq<EnvV>, bool)
    decreases (if 0 <= e < envs.len() { e } else { 0 }),
{
    if !(0 <= e < envs.len()) {
        (envs, false)
    } else if envs[e].vals.dom().contains(name) {
        (env_define(envs, e, name, v), true)
    } else {
        match envs[e].parent {
            Some(p) => if 0 <= p < e {
                assign_v(envs, p, name, v)
            } else {
                (envs, false)
            },
            None => (envs, false),
        }
    }
}

/// A value resolved through a well-formed arena is itself well formed.
pub proof fn lemma_lookup_wf(envs: Seq<EnvV>, e: int, name: Seq<char>)
    requires
        envs_wf(envs),
    ensures
        match lookup(envs, e, name) {
            Some(v) => value_wf(v, envs.len() as int),
            None => true,
        },
    decreases (if 0 <= e < envs.len() { e } else { 0 }),
{
    if 0 <= e < envs.len() && !envs[e].vals.dom().contains(name) {
        match envs[e].parent {
            Some(p) => {
                if 0 <= p < e {
                    lemma_lookup_wf(envs, p, name);
                }
            },
            None => {},
        }
    }
}

/// Defining a well-formed value in a record keeps the arena well formed.
pub proof fn lemma_env_define_wf(envs: Seq<EnvV>, cur: int, name: Seq<char>, v: ValueV)
    requires
        envs_wf(envs),
        0 <= cur < envs.len(),
        value_wf(v, envs.len() as int),
    ensures
        envs_wf(env_define(envs, cur, name, v)),
        env_define(envs, cur, name, v).len() == envs.len(),
{
    let envs2 = env_define(envs, cur, name, v);
    assert forall|i: int| 0 <= i < envs2.len() implies env_wf(#[trigger] envs2[i], i, envs2.len() as int) by {
        assert(env_wf(envs[i], i, envs.len() as int));
        if i == cur {
            assert forall|k: Seq<char>| #[trigger] envs2[i].vals.dom().contains(k) implies value_wf(
                envs2[i].vals[k],
                envs2.len() as int,
            ) by {
                if k != name {
                    assert(envs[i].vals.dom().contains(k));
                }
            }
        }
    }
}

/// Extending the arena with a record whose parent already lies inside it
/// keeps the arena well formed.
pub proof fn lemma_envs_wf_push(envs: Seq<EnvV>, e: EnvV)
    requires
        envs_wf(envs),
        match e.parent {
            Some(p) => 0 <= p < envs.len(),
            None => true,
        },
        forall|k: Seq<char>| #[trigger] e.vals.dom().contains(k) ==> value_wf(
            e.vals[k],
            envs.len() as int + 1,
        ),
    ensures
        envs_wf(envs.push(e)),
{
    let envs2 = envs.push(e);
    assert forall|i: int| 0 <= i < envs2.len() implies env_wf(#[trigger] envs2[i], i, envs2.len() as int) by {
        if i < envs.len() {
            assert(env_wf(envs[i], i, envs.len() as int));
            assert forall|k: Seq<char>| #[trigger] envs2[i].vals.dom().contains(k) implies value_wf(
                envs2[i].vals[k],
                envs2.len() as int,
            ) by {
                assert(value_wf(envs[i].vals[k], envs.len() as int));
            }
        }
    }
}

/// A statement's size is below its sequence's size.
pub proof fn lemma_size_stmts_index(ss: Seq<StmtV>, i: int)
    requires
        0 <= i < ss.len(),
    ensures
        size_stmt_v(ss[i]) < size_stmts_v(ss),
    decreases ss.len(),
{
    if i > 0 {
        lemma_size_stmts_index(ss.subrange(1, ss.len() as int), i - 1);
        assert(ss.subrange(1, ss.len() as int)[i - 1] == ss[i]);
    }
}

/// An argument expression's size is below its sequence's size.
pub proof fn lemma_size_exprs_index(es: Seq<ExprV>, i: int)
    requires
        0 <= i < es.len(),
    ensures
        size_expr_v(es[i]) < size_exprs_v(es),
    decreases es.len(),
{
    if i > 0 {
        lemma_size_exprs_index(es.subrange(1, es.len() as int), i - 1);
        assert(es.subrange(1, es.len() as int)[i - 1] == es[i]);
    }
}

/// A branch's condition and body sizes are below its sequence's size.
pub proof fn lemma_size_branches_index(bs: Seq<BranchV>, i: int)
    requires
        0 <= i < bs.len(),
    ensures
        size_expr_v(bs[i].cond) < size_branches_v(bs),
        size_block_v(bs[i].body) < size_branches_v(bs),
    decreases bs.len(),
{
    if i > 0 {
        lemma_size_branches_index(bs.subrange(1, bs.len() as int), i - 1);
        assert(bs.subrange(1, bs.len() as int)[i - 1] == bs[i]);
    }
}

/// Binding well-formed arguments gives well-formed bindings.
pub proof fn lemma_bind_params_wf(params: Seq<Seq<char>>, args: Seq<ValueV>, n: int)
    requires
        forall|j: int| 0 <= j < args.len() ==> value_wf(#[trigger] args[j], n),
    ensures
        forall|k: Seq<char>| #[trigger] bind_params(params, args).dom().contains(k) ==> value_wf(
            bind_params(params, args)[k],
            n,
        ),
    decreases params.len(),
{
    if params.len() > 0 && args.len() > 0 {
        lemma_bind_params_wf(params.drop_last(), args.drop_last(), n);
        assert forall|j: int| 0 <= j < args.drop_last().len() implies value_wf(
            #[trigger] args.drop_last()[j],
            n,
        ) by {
            assert(args.drop_last()[j] == args[j]);
        }
        let m0 = bind_params(params.drop_last(), args.drop_last());
        let m = bind_params(params, args);
        assert(m == m0.insert(params.last(), args.last()));
        assert forall|k: Seq<char>| #[trigger] m.dom().contains(k) implies value_wf(m[k], n) by {
            if k == params.last() {
                assert(args.last() == args[args.len() - 1]);
            } else {
                assert(m0.dom().contains(k));
                assert(m[k] == m0[k]);
            }
        }
    }
}

/// Scoping law, expression form: evaluating an expression never changes a
/// pre-existing environment record other than the currently active one;
/// fresh records may be added, and earlier records keep their place.
pub proof fn lemma_expr_frame(fuel: nat, envs: Seq<EnvV>, cur: int, e: ExprV)
    requires
        0 <= cur < envs.len(),
    ensures
        ({
            let (envs2, res) = eval_expr_v(fuel, envs, cur, e);
            envs2.len() >= envs.len() && forall|i: int|
                0 <= i < envs.len() && i != cur ==> envs2[i] == envs[i]
        }),
    decreases fuel, size_expr_v(e), 1int,
{
    match e {
        ExprV::Int(_) => {},
        ExprV::Str(_) => {},
        ExprV::Ident(_) => {},
        ExprV::Binary { op, lhs, rhs } => {
            lemma_expr_frame(fuel, envs, cur, *lhs);
            let (envs1, r1) = eval_expr_v(fuel, envs, cur, *lhs);
            if r1 is Ok {
                lemma_expr_frame(fuel, envs1, cur, *rhs);
            }
        },
        ExprV::Unary { op, rhs } => {
            lemma_expr_frame(fuel, envs, cur, *rhs);
        },
        ExprV::Block(b) => {
            lemma_block_frame(fuel, envs, cur, *b);
        },
        ExprV::If { branches, els } => {
            lemma_branches_frame(fuel, envs, cur, branches, els);
        },
        ExprV::Call { callee, args } => {
            lemma_expr_frame(fuel, envs, cur, *callee);
            let (envs1, r1) = eval_expr_v(fuel, envs, cur, *callee);
            if r1 is Ok {
                lemma_exprs_frame(fuel, envs1, cur, args);
                let (envs2, r2) = eval_exprs_v(fuel, envs1, cur, args);
                match (r1, r2) {
                    (Ok(cv), Ok(vs)) => {
                        lemma_call_frame(fuel, envs2, cv, vs);
                    },
                    _ => {},
                }
            }
        },
    }
}

/// Scoping law, argument-list form.
pub proof fn lemma_exprs_frame(fuel: nat, envs: Seq<EnvV>, cur: int, es: Seq<ExprV>)
    requires
        0 <= cur < envs.len(),
    ensures
        ({
            let (envs2, res) = eval_exprs_v(fuel, envs, cur, es);
            envs2.len() >= envs.len() && forall|i: int|
                0 <= i < envs.len() && i != cur ==> envs2[i] == envs[i]
        }),
    decreases fuel, size_exprs_v(es), 1int,
{
    if es.len() > 0 {
        lemma_expr_frame(fuel, envs, cur, es[0]);
        let (envs1, r1) = eval_expr_v(fuel, envs, cur, es[0]);
        if r1 is Ok {
            lemma_exprs_frame(fuel, envs1, cur, es.subrange(1, es.len() as int));
        }
    }
}

/// Scoping law, branch-list form.
pub proof fn lemma_branches_frame(
    fuel: nat,
    envs: Seq<EnvV>,
    cur: int,
    branches: Seq<BranchV>,
    els: Option<Box<BlockV>>,
)
    requires
        0 <= cur < envs.len(),
    ensures
        ({
            let (envs2, res) = eval_branches_v(fuel, envs, cur, branches, els);
            envs2.len() >= envs.len() && forall|i: int|
                0 <= i < envs.len() && i != cur ==> envs2[i] == envs[i]
        }),
    decreases fuel, size_branches_v(branches) + size_opt_block(els), 1int,
{
    if branches.len() == 0 {
        match els {
            Some(b) => {
                lemma_block_frame(fuel, envs, cur, *b);
            },
            None => {},
        }
    } else {
        lemma_expr_frame(fuel, envs, cur, branches[0].cond);
        let (envs1, r1) = eval_expr_v(fuel, envs, cur, branches[0].cond);
        match r1 {
            Ok(v) => {
                if truthy(v) {
                    lemma_block_frame(fuel, envs1, cur, branches[0].body);
                } else {
                    lemma_branches_frame(
                        fuel,
                        envs1,
                        cur,
                        branches.subrange(1, branches.len() as int),
                        els,
                    );
                }
            },
            _ => {},
        }
    }
}

/// Scoping law, call form: a call changes no pre-existing record at all.
/// The arguments are bound in a fresh record over the captured closure
/// record, so even the caller's active record stays as it was.
pub proof fn lemma_call_frame(fuel: nat, envs: Seq<EnvV>, callee: ValueV, args: Seq<ValueV>)
    ensures
        ({
            let (envs2, res) = call_v(fuel, envs, callee, args);
            envs2.len() >= envs.len() && forall|i: int|
                0 <= i < envs.len() ==> envs2[i] == envs[i]
        }),
    decreases fuel, 0int, 0int,
{
    match callee {
        ValueV::Fn(f) => {
            if args.len() == f.params.len() && fuel > 0 {
                let callenv = EnvV { vals: bind_params(f.params, args), parent: Some(f.closure) };
                lemma_block_frame((fuel - 1) as nat, envs.push(callenv), envs.len() as int, f.body);
                let pushed = envs.push(callenv);
                assert(forall|i: int| 0 <= i < envs.len() ==> pushed[i] == envs[i]);
            }
        },
        _ => {},
    }
}

/// Scoping law, block form: a block runs its statements and tail in a
/// fresh child record, so no pre-existing record changes at all — its
/// bindings shadow outer ones while it runs and do not leak afterwards.
pub proof fn lemma_block_frame(fuel: nat, envs: Seq<EnvV>, cur: int, b: BlockV)
    requires
        0 <= cur,
    ensures
        ({
            let (envs2, res) = eval_block_v(fuel, envs, cur, b);
            envs2.len() >= envs.len() && forall|i: int|
                0 <= i < envs.len() ==> envs2[i] == envs[i]
        }),
    decreases fuel, size_block_v(b), 0int,
{
    let child = EnvV { vals: Map::empty(), parent: Some(cur) };
    let n = envs.len() as int;
    let pushed = envs.push(child);
    lemma_stmts_frame(fuel, pushed, n, b.body);
    let (envs1, r1) = eval_stmts_v(fuel, pushed, n, b.body);
    match r1 {
        Some(_) => {},
        None => match b.tail {
            Some(te) => {
                lemma_expr_frame(fuel, envs1, n, te);
            },
            None => {},
        },
    }
}

/// Scoping law, statement-list form.
pub proof fn lemma_stmts_frame(fuel: nat, envs: Seq<EnvV>, cur: int, ss: Seq<StmtV>)
    requires
        0 <= cur < envs.len(),
    ensures
        ({
            let (envs2, res) = eval_stmts_v(fuel, envs, cur, ss);
            envs2.len() >= envs.len() && forall|i: int|
                0 <= i < envs.len() && i != cur ==> envs2[i] == envs[i]
        }),
    decreases fuel, size_stmts_v(ss), 1int,
{
    if ss.len() > 0 {
        lemma_stmt_frame(fuel, envs, cur, ss[0]);
        let (envs1, r1) = eval_stmt_v(fuel, envs, cur, ss[0]);
        if r1 is None {
            lemma_stmts_frame(fuel, envs1, cur, ss.subrange(1, ss.len() as int));
        }
    }
}

/// Scoping law, statement form: `let` and `fn` bind strictly in the
/// record they run in; no other pre-existing record changes.
pub proof fn lemma_stmt_frame(fuel: nat, envs: Seq<EnvV>, cur: int, s: StmtV)
    requires
        0 <= cur < envs.len(),
    ensures
        ({
            let (envs2, res) = eval_stmt_v(fuel, envs, cur, s);
            envs2.len() >= envs.len() && forall|i: int|
                0 <= i < envs.len() && i != cur ==> envs2[i] == envs[i]
        }),
    decreases fuel, size_stmt_v(s), 0int,
{
    match s {
        StmtV::Fn { name, params, body } => {},
        StmtV::Let { name, value } => {
            lemma_expr_frame(fuel, envs, cur, value);
        },
        StmtV::Expr(e) => {
            lemma_expr_frame(fuel, envs, cur, e);
        },
    }
}

/// Scoping law, whole-program form: running a program changes no record
/// but the one it is given to run in.
pub proof fn lemma_program_frame(fuel: nat, envs: Seq<EnvV>, cur: int, p: ProgramV)
    requires
        0 <= cur < envs.len(),
    ensures
        ({
            let (envs2, res) = eval_program_v(fuel, envs, cur, p);
            envs2.len() >= envs.len() && forall|i: int|
                0 <= i < envs.len() && i != cur ==> envs2[i] == envs[i]
        }),
    decreases fuel, size_stmts_v(p.body) + size_opt_expr(p.tail), 2int,
{
    lemma_stmts_frame(fuel, envs, cur, p.body);
    let (envs1, r1) = eval_stmts_v(fuel, envs, cur, p.body);
    if r1 is None {
        match p.tail {
            Some(te) => {
                lemma_expr_frame(fuel, envs1, cur, te);
            },
            None => {},
        }
    }
}

/// Arity law: whatever the arena, the fuel and the argument values,
/// applying a function value to the wrong number of arguments fails with
/// exactly the two counts, and applying anything else fails as not
/// callable; neither touches the arena.
pub proof fn lemma_call_arity(fuel: nat, envs: Seq<EnvV>, callee: ValueV, args: Seq<ValueV>)
    ensures
        match callee {
            ValueV::Fn(f) => args.len() != f.params.len() ==> call_v(fuel, envs, callee, args)
                == (
                envs,
                Err::<ValueV, RunErrV>(
                    RunErrV::ArityMismatch {
                        expected: f.params.len() as int,
                        actual: args.len() as int,
                    },
                ),
            ),
            _ => call_v(fuel, envs, callee, args) == (
                envs,
                Err::<ValueV, RunErrV>(RunErrV::NotCallable(kind_of(callee))),
            ),
        },
{
}

} // verus!
