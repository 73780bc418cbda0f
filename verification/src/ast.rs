use vstd::prelude::*;

verus! {

/// A whole source file: its statements and, when the last statement is an
/// unterminated expression statement, that expression promoted to the tail.
#[derive(Debug, PartialEq)]
pub struct Program {
    pub body: Vec<Stmt>,
    pub tail: Option<Expr>,
}

#[derive(Debug, PartialEq)]
pub enum Stmt {
    Fn(Box<StmtFn>),
    Let(Box<StmtLet>),
    Expr(Box<Expr>),
}

/// A function declaration: `fn name(params) { body }`.
#[derive(Debug, PartialEq)]
pub struct StmtFn {
    pub name: String,
    pub params: Vec<String>,
    pub body: Block,
}

/// A binding declaration: `let name = value;`.
#[derive(Debug, PartialEq)]
pub struct StmtLet {
    pub name: String,
    pub value: Expr,
}

#[derive(Debug, PartialEq)]
pub enum Expr {
    If(Box<ExprIf>),
    Block(Box<Block>),
    Str(Box<ExprStr>),
    Int(Box<ExprInt>),
    Identifier(Box<ExprIdent>),
    Call(Box<ExprCall>),
    Binary(Box<ExprBinary>),
    Unary(Box<ExprUnary>),
}

/// An `if` expression: the branches in source order, then an optional
/// final bare `else` block.
#[derive(Debug, PartialEq)]
pub struct ExprIf {
    pub branches: Vec<IfBranch>,
    pub tail: Option<Block>,
}

#[derive(Debug, PartialEq)]
pub struct IfBranch {
    pub cond: Expr,
    pub body: Block,
}

#[derive(Debug, PartialEq)]
pub struct ExprBinary {
    pub lhs: Expr,
    pub op: BinaryOp,
    pub rhs: Expr,
}

#[derive(Clone, Copy, Debug, PartialEq, Eq, Structural)]
pub enum BinaryOp {
    Add,
    Subtract,
    Multiply,
    Divide,
    Or,
    And,
    Equal,
    NotEqual,
    LessThan,
    LessOrEqual,
    GreaterThan,
    GreaterOrEqual,
}

#[derive(Debug, PartialEq)]
pub struct ExprUnary {
    pub rhs: Expr,
    pub op: UnaryOp,
}

#[derive(Clone, Copy, Debug, PartialEq, Eq, Structural)]
pub enum UnaryOp {
    Minus,
    Not,
}

#[derive(Debug, PartialEq)]
pub struct ExprCall {
    pub callee: Expr,
    pub args: Vec<Expr>,
}

#[derive(Debug, PartialEq)]
pub struct ExprInt {
    pub value: i64,
}

#[derive(Debug, PartialEq)]
pub struct ExprStr {
    pub value: String,
}

#[derive(Debug, PartialEq)]
pub struct ExprIdent {
    pub name: String,
}

/// A braced expression wrapped as a standalone node, for embedders that
/// pass blocks around outside an `Expr`.
#[derive(Debug, PartialEq)]
pub struct ExprBlock {
    pub inner: Block,
}

/// A braced sequence of statements with an optional tail expression;
/// the block's value is the tail, or no value when the tail is absent.
#[derive(Debug, PartialEq)]
pub struct Block {
    pub body: Vec<Stmt>,
    pub tail: Option<Expr>,
}

/// The mathematical shape of a program: sequences in place of vectors,
/// character sequences in place of strings.
pub struct ProgramV {
    pub body: Seq<StmtV>,
    pub tail: Option<ExprV>,
}

pub enum StmtV {
    Fn { name: Seq<char>, params: Seq<Seq<char>>, body: BlockV },
    Let { name: Seq<char>, value: ExprV },
    Expr(ExprV),
}

pub struct BlockV {
    pub body: Seq<StmtV>,
    pub tail: Option<ExprV>,
}

pub struct BranchV {
    pub cond: ExprV,
    pub body: BlockV,
}

pub enum ExprV {
    If { branches: Seq<BranchV>, els: Option<Box<BlockV>> },
    Block(Box<BlockV>),
    Str(Seq<char>),
    Int(i64),
    Ident(Seq<char>),
    Call { callee: Box<ExprV>, args: Seq<ExprV> },
    Binary { op: BinaryOp, lhs: Box<ExprV>, rhs: Box<ExprV> },
    Unary { op: UnaryOp, rhs: Box<ExprV> },
}

pub open spec fn deep_stmts(ss: Seq<Stmt>) -> Seq<StmtV>
    decreases ss,
{
    if ss.len() == 0 {
        Seq::empty()
    } else {
        deep_stmts(ss.subrange(0, ss.len() - 1)).push(ss[ss.len() - 1].deep())
    }
}

pub open spec fn deep_exprs(es: Seq<Expr>) -> Seq<ExprV>
    decreases es,
{
    if es.len() == 0 {
        Seq::empty()
    } else {
        deep_exprs(es.subrange(0, es.len() - 1)).push(es[es.len() - 1].deep())
    }
}

pub open spec fn deep_branches(bs: Seq<IfBranch>) -> Seq<BranchV>
    decreases bs,
{
    if bs.len() == 0 {
        Seq::empty()
    } else {
        deep_branches(bs.subrange(0, bs.len() - 1)).push(bs[bs.len() - 1].deep())
    }
}

/// The names of a parameter list, as character sequences.
pub open spec fn deep_params(ps: Seq<String>) -> Seq<Seq<char>> {
    ps.map_values(|p: String| p@)
}

impl Program {
    pub open spec fn deep(&self) -> ProgramV {
        ProgramV {
            body: deep_stmts(self.body@),
            tail: match self.tail {
                Some(e) => Some(e.deep()),
                None => None,
            },
        }
    }
}

impl Block {
    pub open spec fn deep(&self) -> BlockV
        decreases self,
    {
        BlockV {
            body: deep_stmts(self.body@),
            tail: match self.tail {
                Some(e) => Some(e.deep()),
                None => None,
            },
        }
    }
}

impl Stmt {
    pub open spec fn deep(&self) -> StmtV
        decreases self,
    {
        match self {
            Stmt::Fn(f) => f.deep(),
            Stmt::Let(l) => l.deep(),
            Stmt::Expr(e) => StmtV::Expr(e.deep()),
        }
    }
}

impl StmtFn {
    pub open spec fn deep(&self) -> StmtV
        decreases self,
    {
        StmtV::Fn { name: self.name@, params: deep_params(self.params@), body: self.body.deep() }
    }
}

impl StmtLet {
    pub open spec fn deep(&self) -> StmtV
        decreases self,
    {
        StmtV::Let { name: self.name@, value: self.value.deep() }
    }
}

impl IfBranch {
    pub open spec fn deep(&self) -> BranchV
        decreases self,
    {
        BranchV { cond: self.cond.deep(), body: self.body.deep() }
    }
}

impl Expr {
    pub open spec fn deep(&self) -> ExprV
        decreases self,
    {
        match self {
            Expr::If(e) => e.deep(),
            Expr::Block(b) => ExprV::Block(Box::new(b.deep())),
            Expr::Str(s) => s.deep(),
            Expr::Int(i) => i.deep(),
            Expr::Identifier(x) => x.deep(),
            Expr::Call(c) => c.deep(),
            Expr::Binary(b) => b.deep(),
            Expr::Unary(u) => u.deep(),
        }
    }
}

impl ExprIf {
    pub open spec fn deep(&self) -> ExprV
        decreases self,
    {
        ExprV::If {
            branches: deep_branches(self.branches@),
            els: match self.tail {
                Some(b) => Some(Box::new(b.deep())),
                None => None,
            },
        }
    }
}

impl ExprCall {
    pub open spec fn deep(&self) -> ExprV
        decreases self,
    {
        ExprV::Call { callee: Box::new(self.callee.deep()), args: deep_exprs(self.args@) }
    }
}

impl ExprBinary {
    pub open spec fn deep(&self) -> ExprV
        decreases self,
    {
        ExprV::Binary {
            op: self.op,
            lhs: Box::new(self.lhs.deep()),
            rhs: Box::new(self.rhs.deep()),
        }
    }
}

impl ExprUnary {
    pub open spec fn deep(&self) -> ExprV
        decreases self,
    {
        ExprV::Unary { op: self.op, rhs: Box::new(self.rhs.deep()) }
    }
}

impl ExprInt {
    pub open spec fn deep(&self) -> ExprV {
        ExprV::Int(self.value)
    }
}

impl ExprStr {
    pub open spec fn deep(&self) -> ExprV {
        ExprV::Str(self.value@)
    }
}

impl ExprIdent {
    pub open spec fn deep(&self) -> ExprV {
        ExprV::Ident(self.name@)
    }
}

pub proof fn lemma_deep_stmts_push(s: Seq<Stmt>, x: Stmt)
    ensures
        deep_stmts(s.push(x)) == deep_stmts(s).push(x.deep()),
{
    let t = s.push(x);
    assert(t.subrange(0, t.len() - 1) =~= s);
    assert(t[t.len() - 1] == x);
}

pub proof fn lemma_deep_exprs_push(s: Seq<Expr>, x: Expr)
    ensures
        deep_exprs(s.push(x)) == deep_exprs(s).push(x.deep()),
{
    let t = s.push(x);
    assert(t.subrange(0, t.len() - 1) =~= s);
    assert(t[t.len() - 1] == x);
}

pub proof fn lemma_deep_branches_push(s: Seq<IfBranch>, x: IfBranch)
    ensures
        deep_branches(s.push(x)) == deep_branches(s).push(x.deep()),
{
    let t = s.push(x);
    assert(t.subrange(0, t.len() - 1) =~= s);
    assert(t[t.len() - 1] == x);
}

fn clone_stmts(v: &Vec<Stmt>) -> (r: Vec<Stmt>)
    ensures
        deep_stmts(r@) == deep_stmts(v@),
    decreases v,
{
    let mut r: Vec<Stmt> = Vec::new();
    let mut i: usize = 0;
    while i < v.len()
        invariant
            i <= v@.len(),
            deep_stmts(r@) == deep_stmts(v@.subrange(0, i as int)),
        decreases v@.len() - i,
    {
        let ghost r0 = r@;
        r.push(v[i].clone());
        proof {
            lemma_deep_stmts_push(r0, r@[r@.len() - 1]);
            lemma_deep_stmts_push(v@.subrange(0, i as int), v@[i as int]);
            assert(v@.subrange(0, i as int).push(v@[i as int]) =~= v@.subrange(0, i + 1));
        }
        i = i + 1;
    }
    proof {
        assert(v@.subrange(0, v@.len() as int) =~= v@);
    }
    r
}

fn clone_exprs(v: &Vec<Expr>) -> (r: Vec<Expr>)
    ensures
        deep_exprs(r@) == deep_exprs(v@),
    decreases v,
{
    let mut r: Vec<Expr> = Vec::new();
    let mut i: usize = 0;
    while i < v.len()
        invariant
            i <= v@.len(),
            deep_exprs(r@) == deep_exprs(v@.subrange(0, i as int)),
        decreases v@.len() - i,
    {
        let ghost r0 = r@;
        r.push(v[i].clone());
        proof {
            lemma_deep_exprs_push(r0, r@[r@.len() - 1]);
            lemma_deep_exprs_push(v@.subrange(0, i as int), v@[i as int]);
            assert(v@.subrange(0, i as int).push(v@[i as int]) =~= v@.subrange(0, i + 1));
        }
        i = i + 1;
    }
    proof {
        assert(v@.subrange(0, v@.len() as int) =~= v@);
    }
    r
}

fn clone_branches(v: &Vec<IfBranch>) -> (r: Vec<IfBranch>)
    ensures
        deep_branches(r@) == deep_branches(v@),
    decreases v,
{
    let mut r: Vec<IfBranch> = Vec::new();
    let mut i: usize = 0;
    while i < v.len()
        invariant
            i <= v@.len(),
            deep_branches(r@) == deep_branches(v@.subrange(0, i as int)),
        decreases v@.len() - i,
    {
        let ghost r0 = r@;
        r.push(v[i].clone());
        proof {
            lemma_deep_branches_push(r0, r@[r@.len() - 1]);
            lemma_deep_branches_push(v@.subrange(0, i as int), v@[i as int]);
            assert(v@.subrange(0, i as int).push(v@[i as int]) =~= v@.subrange(0, i + 1));
        }
        i = i + 1;
    }
    proof {
        assert(v@.subrange(0, v@.len() as int) =~= v@);
    }
    r
}

/// Clones a parameter list, name for name.
pub(crate) fn clone_strings(v: &Vec<String>) -> (r: Vec<String>)
    ensures
        deep_params(r@) == deep_params(v@),
{
    let mut r: Vec<String> = Vec::new();
    let mut i: usize = 0;
    while i < v.len()
        invariant
            i <= v@.len(),
            r@.len() == i,
            forall|j: int| 0 <= j < i ==> r@[j]@ == v@[j]@,
        decreases v@.len() - i,
    {
        r.push(v[i].clone());
        i = i + 1;
    }
    proof {
        assert(deep_params(r@) =~= deep_params(v@));
    }
    r
}

impl Clone for ExprInt {
    /// The clone has the same view as the original.
    fn clone(&self) -> (r: Self)
        ensures
            r.deep() == self.deep(),
    {
        ExprInt { value: self.value }
    }
}

impl Clone for ExprStr {
    /// The clone has the same view as the original.
    fn clone(&self) -> (r: Self)
        ensures
            r.deep() == self.deep(),
    {
        ExprStr { value: self.value.clone() }
    }
}

impl Clone for ExprIdent {
    /// The clone has the same view as the original.
    fn clone(&self) -> (r: Self)
        ensures
            r.deep() == self.deep(),
    {
        ExprIdent { name: self.name.clone() }
    }
}

impl Clone for Expr {
    /// The clone has the same view as the original.
    fn clone(&self) -> (r: Self)
        ensures
            r.deep() == self.deep(),
        decreases self,
    {
        match self {
            Expr::If(e) => Expr::If(Box::new((**e).clone())),
            Expr::Block(b) => Expr::Block(Box::new((**b).clone())),
            Expr::Str(v) => Expr::Str(Box::new((**v).clone())),
            Expr::Int(v) => Expr::Int(Box::new((**v).clone())),
            Expr::Identifier(v) => Expr::Identifier(Box::new((**v).clone())),
            Expr::Call(v) => Expr::Call(Box::new((**v).clone())),
            Expr::Binary(v) => Expr::Binary(Box::new((**v).clone())),
            Expr::Unary(v) => Expr::Unary(Box::new((**v).clone())),
        }
    }
}

impl Clone for ExprIf {
    /// The clone has the same view as the original.
    fn clone(&self) -> (r: Self)
        ensures
            r.deep() == self.deep(),
        decreases self,
    {
        ExprIf {
            branches: clone_branches(&self.branches),
            tail: match &self.tail {
                Some(b) => Some(b.clone()),
                None => None,
            },
        }
    }
}

impl Clone for IfBranch {
    /// The clone has the same view as the original.
    fn clone(&self) -> (r: Self)
        ensures
            r.deep() == self.deep(),
        decreases self,
    {
        IfBranch { cond: self.cond.clone(), body: self.body.clone() }
    }
}

impl Clone for ExprCall {
    /// The clone has the same view as the original.
    fn clone(&self) -> (r: Self)
        ensures
            r.deep() == self.deep(),
        decreases self,
    {
        ExprCall { callee: self.callee.clone(), args: clone_exprs(&self.args) }
    }
}

impl Clone for ExprBinary {
    /// The clone has the same view as the original.
    fn clone(&self) -> (r: Self)
        ensures
            r.deep() == self.deep(),
        decreases self,
    {
        ExprBinary { lhs: self.lhs.clone(), op: self.op, rhs: self.rhs.clone() }
    }
}

impl Clone for ExprUnary {
    /// The clone has the same view as the original.
    fn clone(&self) -> (r: Self)
        ensures
            r.deep() == self.deep(),
        decreases self,
    {
        ExprUnary { rhs: self.rhs.clone(), op: self.op }
    }
}

impl Clone for Stmt {
    /// The clone has the same view as the original.
    fn clone(&self) -> (r: Self)
        ensures
            r.deep() == self.deep(),
        decreases self,
    {
        match self {
            Stmt::Fn(f) => Stmt::Fn(Box::new((**f).clone())),
            Stmt::Let(l) => Stmt::Let(Box::new((**l).clone())),
            Stmt::Expr(e) => Stmt::Expr(Box::new((**e).clone())),
        }
    }
}

impl Clone for StmtFn {
    /// The clone has the same view as the original.
    fn clone(&self) -> (r: Self)
        ensures
            r.deep() == self.deep(),
        decreases self,
    {
        StmtFn {
            name: self.name.clone(),
            params: clone_strings(&self.params),
            body: self.body.clone(),
        }
    }
}

impl Clone for StmtLet {
    /// The clone has the same view as the original.
    fn clone(&self) -> (r: Self)
        ensures
            r.deep() == self.deep(),
        decreases self,
    {
        StmtLet { name: self.name.clone(), value: self.value.clone() }
    }
}

impl Clone for Block {
    /// The clone has the same view as the original.
    fn clone(&self) -> (r: Self)
        ensures
            r.deep() == self.deep(),
        decreases self,
    {
        Block {
            body: clone_stmts(&self.body),
            tail: match &self.tail {
                Some(e) => Some(e.clone()),
                None => None,
            },
        }
    }
}

/// The view of a statement sequence is its statements' views, in order.
pub proof fn lemma_deep_stmts_index(ss: Seq<Stmt>)
    ensures
        deep_stmts(ss).len() == ss.len(),
        forall|i: int| 0 <= i < ss.len() ==> deep_stmts(ss)[i] == #[trigger] ss[i].deep(),
    decreases ss.len(),
{
    if ss.len() > 0 {
        lemma_deep_stmts_index(ss.subrange(0, ss.len() - 1));
        assert forall|i: int| 0 <= i < ss.len() implies deep_stmts(ss)[i] == #[trigger] ss[i].deep() by {
            if i < ss.len() - 1 {
                assert(ss.subrange(0, ss.len() - 1)[i] == ss[i]);
            }
        }
    }
}

/// The view of an expression sequence is its expressions' views, in order.
pub proof fn lemma_deep_exprs_index(es: Seq<Expr>)
    ensures
        deep_exprs(es).len() == es.len(),
        forall|i: int| 0 <= i < es.len() ==> deep_exprs(es)[i] == #[trigger] es[i].deep(),
    decreases es.len(),
{
    if es.len() > 0 {
        lemma_deep_exprs_index(es.subrange(0, es.len() - 1));
        assert forall|i: int| 0 <= i < es.len() implies deep_exprs(es)[i] == #[trigger] es[i].deep() by {
            if i < es.len() - 1 {
                assert(es.subrange(0, es.len() - 1)[i] == es[i]);
            }
        }
    }
}

/// The view of a branch sequence is its branches' views, in order.
pub proof fn lemma_deep_branches_index(bs: Seq<IfBranch>)
    ensures
        deep_branches(bs).len() == bs.len(),
        forall|i: int| 0 <= i < bs.len() ==> deep_branches(bs)[i] == #[trigger] bs[i].deep(),
    decreases bs.len(),
{
    if bs.len() > 0 {
        lemma_deep_branches_index(bs.subrange(0, bs.len() - 1));
        assert forall|i: int| 0 <= i < bs.len() implies deep_branches(bs)[i] == #[trigger] bs[i].deep() by {
            if i < bs.len() - 1 {
                assert(bs.subrange(0, bs.len() - 1)[i] == bs[i]);
            }
        }
    }
}

} // verus!
