//! The Python syntax tree the rules read: statements, expressions, parameters and patterns,
//! with character ranges into the source text.
use vstd::prelude::*;

verus! {

/// A half-open range of character offsets.
#[derive(Clone, Copy, Debug, PartialEq, Eq, Structural)]
pub struct TextRange {
    pub start: usize,
    pub end: usize,
}

/// A name together with where it is written.
pub struct Identifier {
    pub id: String,
    pub range: TextRange,
}

#[derive(Clone, Copy, Debug, PartialEq, Eq, Structural)]
pub enum ExprContext {
    Load,
    Store,
    Del,
    Invalid,
}

#[derive(Clone, Copy, Debug, PartialEq, Eq, Structural)]
pub enum CmpOp {
    Eq,
    NotEq,
    Lt,
    LtE,
    Gt,
    GtE,
    Is,
    IsNot,
    In,
    NotIn,
}

#[derive(Clone, Copy, Debug, PartialEq, Eq, Structural)]
pub enum UnaryOp {
    Not,
    Invert,
    UAdd,
    USub,
}

/// One parameter: its name, annotation and default value.
pub struct Parameter {
    pub name: Identifier,
    pub annotation: Option<Box<Expr>>,
    pub default: Option<Box<Expr>>,
}

/// A parameter list, by calling convention.
pub struct Parameters {
    pub posonlyargs: Vec<Parameter>,
    pub args: Vec<Parameter>,
    pub vararg: Option<Box<Parameter>>,
    pub kwonlyargs: Vec<Parameter>,
    pub kwarg: Option<Box<Parameter>>,
}

/// A type parameter: its name and the expressions of its bound and default.
pub struct TypeParam {
    pub name: Identifier,
    pub children: Vec<Expr>,
}

#[allow(inconsistent_fields)]
pub enum Expr {
    Name { id: String, ctx: ExprContext, range: TextRange },
    Attribute { value: Box<Expr>, attr: Identifier, ctx: ExprContext, range: TextRange },
    Subscript { value: Box<Expr>, slice: Box<Expr>, ctx: ExprContext, range: TextRange },
    Starred { value: Box<Expr>, ctx: ExprContext, range: TextRange },
    List { elts: Vec<Expr>, ctx: ExprContext, range: TextRange },
    Tuple { elts: Vec<Expr>, ctx: ExprContext, range: TextRange },
    /// A dict display: its keys and values in source order.
    Dict { items: Vec<Expr>, range: TextRange },
    /// A call: the callee, then its positional and keyword argument values.
    Call { func: Box<Expr>, arguments: Vec<Expr>, range: TextRange },
    Compare { left: Box<Expr>, ops: Vec<CmpOp>, comparators: Vec<Expr>, range: TextRange },
    UnaryOp { op: UnaryOp, operand: Box<Expr>, range: TextRange },
    Named { target: Box<Expr>, value: Box<Expr>, range: TextRange },
    Lambda { parameters: Option<Box<Parameters>>, body: Box<Expr>, range: TextRange },
    /// A list, set or dict comprehension or a generator: the iterables, targets and
    /// conditions of its clauses, then its element expressions.
    Comprehension { parts: Vec<Expr>, range: TextRange },
    /// A string literal with its value.
    StringLiteral { value: String, range: TextRange },
    BooleanLiteral { value: bool, range: TextRange },
    NoneLiteral { range: TextRange },
    EllipsisLiteral { range: TextRange },
    /// Any other expression, with its sub-expressions in source order.
    Other { children: Vec<Expr>, range: TextRange },
}

/// The arguments of a class header: its bases, then its keyword values.
pub struct ClassArguments {
    pub args: Vec<Expr>,
    pub keywords: Vec<Expr>,
}

pub struct FunctionDef {
    pub name: Identifier,
    pub is_async: bool,
    pub decorators: Vec<Expr>,
    pub type_params: Vec<TypeParam>,
    pub parameters: Parameters,
    pub returns: Option<Box<Expr>>,
    pub body: Vec<Stmt>,
    pub range: TextRange,
}

pub struct ClassDef {
    pub name: Identifier,
    pub decorators: Vec<Expr>,
    pub type_params: Vec<TypeParam>,
    pub arguments: Option<ClassArguments>,
    pub body: Vec<Stmt>,
    pub range: TextRange,
}

pub struct ExceptHandler {
    pub type_: Option<Box<Expr>>,
    pub name: Option<Identifier>,
    pub body: Vec<Stmt>,
    pub range: TextRange,
}

/// An `elif` clause (with a test) or an `else` clause (without one).
pub struct ElifElseClause {
    pub test: Option<Expr>,
    pub body: Vec<Stmt>,
    pub range: TextRange,
}

pub struct WithItem {
    pub context_expr: Expr,
    pub optional_vars: Option<Expr>,
}

pub struct MatchCase {
    pub pattern: Pattern,
    pub guard: Option<Expr>,
    pub body: Vec<Stmt>,
}

pub struct Alias {
    pub name: Identifier,
    pub asname: Option<Identifier>,
}

pub enum Pattern {
    MatchValue { value: Box<Expr> },
    MatchSingleton,
    MatchSequence { patterns: Vec<Pattern> },
    MatchMapping { keys: Vec<Expr>, patterns: Vec<Pattern>, rest: Option<Identifier> },
    MatchClass { cls: Box<Expr>, patterns: Vec<Pattern>, keyword_patterns: Vec<Pattern> },
    MatchStar { name: Option<Identifier> },
    MatchAs { pattern: Option<Box<Pattern>>, name: Option<Identifier> },
    MatchOr { patterns: Vec<Pattern> },
}

#[allow(inconsistent_fields)]
pub enum Stmt {
    FunctionDef(FunctionDef),
    ClassDef(ClassDef),
    Return { value: Option<Expr>, range: TextRange },
    Delete { targets: Vec<Expr>, range: TextRange },
    Assign { targets: Vec<Expr>, value: Expr, range: TextRange },
    AugAssign { target: Expr, value: Expr, range: TextRange },
    AnnAssign { target: Expr, annotation: Expr, value: Option<Expr>, range: TextRange },
    TypeAlias { name: Expr, type_params: Vec<TypeParam>, value: Expr, range: TextRange },
    For { target: Expr, iter: Expr, body: Vec<Stmt>, orelse: Vec<Stmt>, range: TextRange },
    While { test: Expr, body: Vec<Stmt>, orelse: Vec<Stmt>, range: TextRange },
    If { test: Expr, body: Vec<Stmt>, clauses: Vec<ElifElseClause>, range: TextRange },
    With { items: Vec<WithItem>, body: Vec<Stmt>, range: TextRange },
    Match { subject: Expr, cases: Vec<MatchCase>, range: TextRange },
    Raise { exc: Option<Expr>, cause: Option<Expr>, range: TextRange },
    Try {
        body: Vec<Stmt>,
        handlers: Vec<ExceptHandler>,
        orelse: Vec<Stmt>,
        finalbody: Vec<Stmt>,
        range: TextRange,
    },
    Assert { test: Expr, msg: Option<Expr>, range: TextRange },
    Import { names: Vec<Alias>, range: TextRange },
    ImportFrom { module: Option<String>, names: Vec<Alias>, level: u32, range: TextRange },
    Global { names: Vec<Identifier>, range: TextRange },
    Nonlocal { names: Vec<Identifier>, range: TextRange },
    Expr { value: Expr, range: TextRange },
    Pass { range: TextRange },
    Break { range: TextRange },
    Continue { range: TextRange },
    IpyEscape { range: TextRange },
}

/// The kinds of lexical tokens the library tells apart.
#[derive(Clone, Copy, Debug, PartialEq, Eq, Structural)]
pub enum TokenKind {
    /// A `#` comment.
    Comment,
    /// The newline that ends a logical line.
    Newline,
    /// The `assert` keyword.
    Assert,
    /// `==`, `!=`, `<`, `>`, `<=` or `>=`.
    Comparison,
    /// A string literal, or the literal text of an f-string or t-string.
    StringPart,
    /// Any other token.
    Other,
}

/// A lexical token: its kind and where it is written.
#[derive(Clone, Copy, Debug, PartialEq, Eq, Structural)]
pub struct Token {
    pub kind: TokenKind,
    pub range: TextRange,
}

/// The statement suites nested directly in a statement, in source order: a definition's
/// body, the bodies and `else` suites of loops, the clauses of `if`, `with`, `match` and
/// `try`.
pub open spec fn child_suites(s: Stmt) -> Seq<Seq<Stmt>> {
    match s {
        Stmt::FunctionDef(f) => seq![f.body@],
        Stmt::ClassDef(c) => seq![c.body@],
        Stmt::For { body, orelse, .. } => seq![body@, orelse@],
        Stmt::While { body, orelse, .. } => seq![body@, orelse@],
        Stmt::If { body, clauses, .. } => seq![body@] + clauses@.map_values(
            |c: ElifElseClause| c.body@,
        ),
        Stmt::With { body, .. } => seq![body@],
        Stmt::Match { cases, .. } => cases@.map_values(|c: MatchCase| c.body@),
        Stmt::Try { body, handlers, orelse, finalbody, .. } => seq![body@] + handlers@.map_values(
            |h: ExceptHandler| h.body@,
        ) + seq![orelse@, finalbody@],
        _ => seq![],
    }
}

/// Every statement of a nested suite is smaller than the statement holding it.
pub proof fn lemma_child_decreases(s: Stmt, k: int, i: int)
    requires
        0 <= k < child_suites(s).len(),
        0 <= i < child_suites(s)[k].len(),
    ensures
        decreases_to!(s => child_suites(s)[k][i]),
{
    match s {
        Stmt::FunctionDef(f) => {
            assert(decreases_to!(s => f));
            assert(decreases_to!(f => f.body));
            assert(decreases_to!(f.body => f.body@));
            assert(decreases_to!(f.body@ => f.body@[i]));
        },
        Stmt::ClassDef(c) => {
            assert(decreases_to!(s => c));
            assert(decreases_to!(c => c.body));
            assert(decreases_to!(c.body => c.body@));
            assert(decreases_to!(c.body@ => c.body@[i]));
        },
        Stmt::For { body, orelse, .. } => {
            if k == 0 {
                assert(decreases_to!(s => s->For_body));
                assert(decreases_to!(body => body@));
                assert(decreases_to!(body@ => body@[i]));
            } else {
                assert(decreases_to!(s => s->For_orelse));
                assert(decreases_to!(orelse => orelse@));
                assert(decreases_to!(orelse@ => orelse@[i]));
            }
        },
        Stmt::While { body, orelse, .. } => {
            if k == 0 {
                assert(decreases_to!(s => s->While_body));
                assert(decreases_to!(body => body@));
                assert(decreases_to!(body@ => body@[i]));
            } else {
                assert(decreases_to!(s => s->While_orelse));
                assert(decreases_to!(orelse => orelse@));
                assert(decreases_to!(orelse@ => orelse@[i]));
            }
        },
        Stmt::If { body, clauses, .. } => {
            if k == 0 {
                assert(decreases_to!(s => s->If_body));
                assert(decreases_to!(body => body@));
                assert(decreases_to!(body@ => body@[i]));
            } else {
                let c = clauses@[k - 1];
                assert(decreases_to!(s => s->If_clauses));
                assert(decreases_to!(clauses => clauses@));
                assert(decreases_to!(clauses@ => clauses@[k - 1]));
                assert(decreases_to!(c => c.body));
                assert(decreases_to!(c.body => c.body@));
                assert(decreases_to!(c.body@ => c.body@[i]));
            }
        },
        Stmt::With { body, .. } => {
            assert(decreases_to!(s => s->With_body));
            assert(decreases_to!(body => body@));
            assert(decreases_to!(body@ => body@[i]));
        },
        Stmt::Match { cases, .. } => {
            let c = cases@[k];
            assert(decreases_to!(s => s->cases));
            assert(decreases_to!(cases => cases@));
            assert(decreases_to!(cases@ => cases@[k]));
            assert(decreases_to!(c => c.body));
            assert(decreases_to!(c.body => c.body@));
            assert(decreases_to!(c.body@ => c.body@[i]));
        },
        Stmt::Try { body, handlers, orelse, finalbody, .. } => {
            let ghost n = handlers@.len();
            if k == 0 {
                assert(decreases_to!(s => s->Try_body));
                assert(decreases_to!(body => body@));
                assert(decreases_to!(body@ => body@[i]));
            } else if k <= n {
                let h = handlers@[k - 1];
                assert(decreases_to!(s => s->handlers));
                assert(decreases_to!(handlers => handlers@));
                assert(decreases_to!(handlers@ => handlers@[k - 1]));
                assert(decreases_to!(h => h.body));
                assert(decreases_to!(h.body => h.body@));
                assert(decreases_to!(h.body@ => h.body@[i]));
            } else if k == n + 1 {
                assert(decreases_to!(s => s->Try_orelse));
                assert(decreases_to!(orelse => orelse@));
                assert(decreases_to!(orelse@ => orelse@[i]));
            } else {
                assert(decreases_to!(s => s->finalbody));
                assert(decreases_to!(finalbody => finalbody@));
                assert(decreases_to!(finalbody@ => finalbody@[i]));
            }
        },
        _ => {},
    }
}

/// The suites nested directly in a statement; see [`child_suites`].
pub fn child_suites_exec(s: &Stmt) -> (suites: Vec<&Vec<Stmt>>)
    ensures
        suites@.len() == child_suites(*s).len(),
        forall|k: int| 0 <= k < suites@.len() ==> (#[trigger] suites@[k])@ == child_suites(*s)[k],
{
    let mut suites: Vec<&Vec<Stmt>> = Vec::new();
    match s {
        Stmt::FunctionDef(f) => {
            suites.push(&f.body);
        },
        Stmt::ClassDef(c) => {
            suites.push(&c.body);
        },
        Stmt::For { body, orelse, .. } => {
            suites.push(body);
            suites.push(orelse);
        },
        Stmt::While { body, orelse, .. } => {
            suites.push(body);
            suites.push(orelse);
        },
        Stmt::If { body, clauses, .. } => {
            suites.push(body);
            let mut i: usize = 0;
            while i < clauses.len()
                invariant
                    0 <= i <= clauses@.len(),
                    suites@.len() == 1 + i,
                    suites@[0]@ == body@,
                    forall|k: int| 0 <= k < i ==> (#[trigger] suites@[k + 1])@ == clauses@[k].body@,
                decreases clauses@.len() - i,
            {
                suites.push(&clauses[i].body);
                i = i + 1;
            }
            assert forall|k: int| 0 <= k < suites@.len() implies (#[trigger] suites@[k])@
                == child_suites(*s)[k] by {
                if k > 0 {
                    assert(suites@[(k - 1) + 1]@ == clauses@[k - 1].body@);
                }
            }
        },
        Stmt::With { body, .. } => {
            suites.push(body);
        },
        Stmt::Match { cases, .. } => {
            let mut i: usize = 0;
            while i < cases.len()
                invariant
                    0 <= i <= cases@.len(),
                    suites@.len() == i,
                    forall|k: int| 0 <= k < i ==> (#[trigger] suites@[k])@ == cases@[k].body@,
                decreases cases@.len() - i,
            {
                suites.push(&cases[i].body);
                i = i + 1;
            }
            assert forall|k: int| 0 <= k < suites@.len() implies (#[trigger] suites@[k])@
                == child_suites(*s)[k] by {
                assert(suites@[k]@ == cases@[k].body@);
            }
        },
        Stmt::Try { body, handlers, orelse, finalbody, .. } => {
            suites.push(body);
            let mut i: usize = 0;
            while i < handlers.len()
                invariant
                    0 <= i <= handlers@.len(),
                    suites@.len() == 1 + i,
                    suites@[0]@ == body@,
                    forall|k: int| 0 <= k < i ==> (#[trigger] suites@[k + 1])@ == handlers@[k].body@,
                decreases handlers@.len() - i,
            {
                suites.push(&handlers[i].body);
                i = i + 1;
            }
            suites.push(orelse);
            suites.push(finalbody);
            let ghost n = handlers@.len();
            assert forall|k: int| 0 <= k < suites@.len() implies (#[trigger] suites@[k])@
                == child_suites(*s)[k] by {
                if 0 < k <= n {
                    assert(suites@[(k - 1) + 1]@ == handlers@[k - 1].body@);
                }
            }
        },
        _ => {},
    }
    suites
}

/// The suites of `suites`, one after another.
pub open spec fn concat_suites(suites: Seq<Seq<Stmt>>) -> Seq<Stmt>
    decreases suites.len(),
{
    if suites.len() == 0 {
        seq![]
    } else {
        concat_suites(suites.drop_last()) + suites.last()
    }
}

/// The statements nested directly in `s`, suite after suite.
pub open spec fn children(s: Stmt) -> Seq<Stmt> {
    concat_suites(child_suites(s))
}

pub proof fn lemma_concat_member(suites: Seq<Seq<Stmt>>, j: int)
    requires
        0 <= j < concat_suites(suites).len(),
    ensures
        exists|k: int, i: int|
            0 <= k < suites.len() && 0 <= i < suites[k].len() && #[trigger] suites[k][i]
                == concat_suites(suites)[j],
    decreases suites.len(),
{
    let prefix = concat_suites(suites.drop_last());
    if j < prefix.len() {
        lemma_concat_member(suites.drop_last(), j);
        let (k, i) = choose|k: int, i: int|
            0 <= k < suites.drop_last().len() && 0 <= i < suites.drop_last()[k].len()
                && #[trigger] suites.drop_last()[k][i] == concat_suites(suites.drop_last())[j];
        assert(suites[k][i] == concat_suites(suites)[j]);
    } else {
        let k = suites.len() - 1;
        let i = j - prefix.len();
        assert(suites[k][i] == concat_suites(suites)[j]);
    }
}

/// Every statement nested directly in `s` is smaller than `s`.
pub proof fn lemma_children_decrease(s: Stmt, j: int)
    requires
        0 <= j < children(s).len(),
    ensures
        decreases_to!(s => children(s)[j]),
{
    lemma_concat_member(child_suites(s), j);
    let (k, i) = choose|k: int, i: int|
        0 <= k < child_suites(s).len() && 0 <= i < child_suites(s)[k].len()
            && #[trigger] child_suites(s)[k][i] == children(s)[j];
    lemma_child_decreases(s, k, i);
}

/// The statements nested directly in `s`; see [`children`].
pub fn children_exec(s: &Stmt) -> (out: Vec<&Stmt>)
    ensures
        out@.len() == children(*s).len(),
        forall|j: int| 0 <= j < out@.len() ==> *(#[trigger] out@[j]) == children(*s)[j],
{
    let suites = child_suites_exec(s);
    let ghost all = child_suites(*s);
    let mut out: Vec<&Stmt> = Vec::new();
    let mut k: usize = 0;
    while k < suites.len()
        invariant
            0 <= k <= suites@.len() == all.len(),
            forall|m: int| 0 <= m < suites@.len() ==> (#[trigger] suites@[m])@ == all[m],
            out@.len() == concat_suites(all.take(k as int)).len(),
            forall|j: int| 0 <= j < out@.len() ==> *(#[trigger] out@[j]) == concat_suites(all.take(k as int))[j],
        decreases suites@.len() - k,
    {
        let suite = suites[k];
        let ghost base = out@;
        let mut i: usize = 0;
        while i < suite.len()
            invariant
                0 <= i <= suite@.len(),
                k < all.len(),
                suite@ == all[k as int],
                out@.len() == base.len() + i,
                forall|j: int| 0 <= j < base.len() ==> out@[j] == base[j],
                forall|j: int| 0 <= j < i ==> *(#[trigger] out@[base.len() + j]) == suite@[j],
            decreases suite@.len() - i,
        {
            out.push(&suite[i]);
            i = i + 1;
        }
        proof {
            assert(all.take(k + 1).drop_last() =~= all.take(k as int));
            assert(all.take(k + 1).last() == all[k as int]);
            let c = concat_suites(all.take(k + 1));
            assert(c == concat_suites(all.take(k as int)) + all[k as int]);
            assert forall|j: int| 0 <= j < out@.len() implies *(#[trigger] out@[j]) == c[j] by {
                let prefix = concat_suites(all.take(k as int));
                if j >= base.len() {
                    assert(*out@[base.len() + (j - base.len())] == suite@[j - base.len()]);
                    assert(c[j] == all[k as int][j - prefix.len()]);
                } else {
                    assert(out@[j] == base[j]);
                    assert(c[j] == prefix[j]);
                }
            }
        }
        k = k + 1;
    }
    assert(all.take(suites@.len() as int) =~= all);
    out
}

/// The range of a statement.
pub open spec fn stmt_range(s: Stmt) -> TextRange {
    match s {
        Stmt::FunctionDef(f) => f.range,
        Stmt::ClassDef(c) => c.range,
        Stmt::Return { range, .. } => range,
        Stmt::Delete { range, .. } => range,
        Stmt::Assign { range, .. } => range,
        Stmt::AugAssign { range, .. } => range,
        Stmt::AnnAssign { range, .. } => range,
        Stmt::TypeAlias { range, .. } => range,
        Stmt::For { range, .. } => range,
        Stmt::While { range, .. } => range,
        Stmt::If { range, .. } => range,
        Stmt::With { range, .. } => range,
        Stmt::Match { range, .. } => range,
        Stmt::Raise { range, .. } => range,
        Stmt::Try { range, .. } => range,
        Stmt::Assert { range, .. } => range,
        Stmt::Import { range, .. } => range,
        Stmt::ImportFrom { range, .. } => range,
        Stmt::Global { range, .. } => range,
        Stmt::Nonlocal { range, .. } => range,
        Stmt::Expr { range, .. } => range,
        Stmt::Pass { range } => range,
        Stmt::Break { range } => range,
        Stmt::Continue { range } => range,
        Stmt::IpyEscape { range } => range,
    }
}

/// The range of an expression.
pub open spec fn expr_range(e: Expr) -> TextRange {
    match e {
        Expr::Name { range, .. } => range,
        Expr::Attribute { range, .. } => range,
        Expr::Subscript { range, .. } => range,
        Expr::Starred { range, .. } => range,
        Expr::List { range, .. } => range,
        Expr::Tuple { range, .. } => range,
        Expr::Dict { range, .. } => range,
        Expr::Call { range, .. } => range,
        Expr::Compare { range, .. } => range,
        Expr::UnaryOp { range, .. } => range,
        Expr::Named { range, .. } => range,
        Expr::Lambda { range, .. } => range,
        Expr::Comprehension { range, .. } => range,
        Expr::StringLiteral { range, .. } => range,
        Expr::BooleanLiteral { range, .. } => range,
        Expr::NoneLiteral { range } => range,
        Expr::EllipsisLiteral { range } => range,
        Expr::Other { range, .. } => range,
    }
}

pub fn stmt_range_exec(s: &Stmt) -> (r: TextRange)
    ensures
        r == stmt_range(*s),
{
    match s {
        Stmt::FunctionDef(f) => f.range,
        Stmt::ClassDef(c) => c.range,
        Stmt::Return { range, .. } => *range,
        Stmt::Delete { range, .. } => *range,
        Stmt::Assign { range, .. } => *range,
        Stmt::AugAssign { range, .. } => *range,
        Stmt::AnnAssign { range, .. } => *range,
        Stmt::TypeAlias { range, .. } => *range,
        Stmt::For { range, .. } => *range,
        Stmt::While { range, .. } => *range,
        Stmt::If { range, .. } => *range,
        Stmt::With { range, .. } => *range,
        Stmt::Match { range, .. } => *range,
        Stmt::Raise { range, .. } => *range,
        Stmt::Try { range, .. } => *range,
        Stmt::Assert { range, .. } => *range,
        Stmt::Import { range, .. } => *range,
        Stmt::ImportFrom { range, .. } => *range,
        Stmt::Global { range, .. } => *range,
        Stmt::Nonlocal { range, .. } => *range,
        Stmt::Expr { range, .. } => *range,
        Stmt::Pass { range } => *range,
        Stmt::Break { range } => *range,
        Stmt::Continue { range } => *range,
        Stmt::IpyEscape { range } => *range,
    }
}

pub fn expr_range_exec(e: &Expr) -> (r: TextRange)
    ensures
        r == expr_range(*e),
{
    match e {
        Expr::Name { range, .. } => *range,
        Expr::Attribute { range, .. } => *range,
        Expr::Subscript { range, .. } => *range,
        Expr::Starred { range, .. } => *range,
        Expr::List { range, .. } => *range,
        Expr::Tuple { range, .. } => *range,
        Expr::Dict { range, .. } => *range,
        Expr::Call { range, .. } => *range,
        Expr::Compare { range, .. } => *range,
        Expr::UnaryOp { range, .. } => *range,
        Expr::Named { range, .. } => *range,
        Expr::Lambda { range, .. } => *range,
        Expr::Comprehension { range, .. } => *range,
        Expr::StringLiteral { range, .. } => *range,
        Expr::BooleanLiteral { range, .. } => *range,
        Expr::NoneLiteral { range } => *range,
        Expr::EllipsisLiteral { range } => *range,
        Expr::Other { range, .. } => *range,
    }
}

} // verus!
