//! The `public-attribute-properties` check: an instance method stores no public attribute
//! on its receiver, except in a property setter. It claims the code GR012 together with
//! `explicit-instance-data`, which the rule table registers under that code, so the table
//! does not run it; it is offered here as a check of its own.
use vstd::prelude::*;
use crate::rules::diagnostic_views;
use crate::rules::explicit_instance_data::is_public_attribute;
use crate::rules::explicit_instance_data::receiver_of;
use crate::rules::Diagnostic;
use crate::rules::DiagnosticView;
use crate::syntax::children;
use crate::syntax::children_exec;
use crate::syntax::lemma_children_decrease;
use crate::syntax::ElifElseClause;
use crate::syntax::ExceptHandler;
use crate::syntax::Expr;
use crate::syntax::ExprContext;
use crate::syntax::FunctionDef;
use crate::syntax::Identifier;
use crate::syntax::MatchCase;
use crate::syntax::Stmt;
use crate::syntax::TextRange;
use crate::syntax::TypeParam;
use crate::syntax::WithItem;
use crate::text::chars_eq;
use crate::text::push_str;
use crate::text::to_chars;

verus! {

pub open spec fn attribute_message(name: Seq<char>) -> Seq<char> {
    "Public instance attribute `"@ + name
        + "` must use underscore-prefixed storage and an explicit property"@
}

/// The finding for `<value>.<attr>` spanning `range` in a method whose receiver is named
/// `receiver`: a store to a public attribute of the receiver.
pub open spec fn attribute_store(
    value: Expr,
    attr: Identifier,
    ctx: ExprContext,
    range: TextRange,
    receiver: Seq<char>,
) -> Seq<DiagnosticView> {
    if ctx == ExprContext::Store && is_public_attribute(attr.id@) && (value matches Expr::Name {
        id,
        ..
    } && id@ == receiver) {
        seq![
            DiagnosticView {
                message: attribute_message(attr.id@),
                range,
                noqa_offset: Some(range.start),
            },
        ]
    } else {
        seq![]
    }
}

/// The findings in an expression, in source order; a lambda, which stores nothing, is not
/// entered.
pub open spec fn expr_stores(e: Expr, receiver: Seq<char>) -> Seq<
    DiagnosticView,
>
    decreases e,
{
    match e {
        Expr::Attribute { value, attr, ctx, range } => attribute_store(
            *value,
            attr,
            ctx,
            range,
            receiver,
        ) + expr_stores(*value, receiver),
        Expr::Subscript { value, slice, .. } => expr_stores(*value, receiver)
            + expr_stores(*slice, receiver),
        Expr::Starred { value, .. } => expr_stores(*value, receiver),
        Expr::List { elts, .. } => exprs_stores(elts@, receiver),
        Expr::Tuple { elts, .. } => exprs_stores(elts@, receiver),
        Expr::Dict { items, .. } => exprs_stores(items@, receiver),
        Expr::Call { func, arguments, .. } => expr_stores(*func, receiver)
            + exprs_stores(arguments@, receiver),
        Expr::Compare { left, comparators, .. } => expr_stores(*left, receiver)
            + exprs_stores(comparators@, receiver),
        Expr::UnaryOp { operand, .. } => expr_stores(*operand, receiver),
        Expr::Named { target, value, .. } => expr_stores(*target, receiver)
            + expr_stores(*value, receiver),
        Expr::Comprehension { parts, .. } => exprs_stores(parts@, receiver),
        Expr::Other { children, .. } => exprs_stores(children@, receiver),
        _ => seq![],
    }
}

pub open spec fn exprs_stores(es: Seq<Expr>, receiver: Seq<char>) -> Seq<
    DiagnosticView,
>
    decreases es,
{
    if es.len() == 0 {
        seq![]
    } else {
        exprs_stores(es.drop_last(), receiver) + expr_stores(
            es.last(),
            receiver,
        )
    }
}

pub open spec fn optional_stores(e: Option<Expr>, receiver: Seq<char>) -> Seq<
    DiagnosticView,
>
    decreases e,
{
    match e {
        Some(x) => expr_stores(x, receiver),
        None => seq![],
    }
}

pub open spec fn boxed_stores(e: Option<Box<Expr>>, receiver: Seq<char>) -> Seq<
    DiagnosticView,
>
    decreases e,
{
    match e {
        Some(x) => expr_stores(*x, receiver),
        None => seq![],
    }
}

pub open spec fn type_params_stores(tps: Seq<TypeParam>, receiver: Seq<char>) -> Seq<
    DiagnosticView,
>
    decreases tps,
{
    if tps.len() == 0 {
        seq![]
    } else {
        type_params_stores(tps.drop_last(), receiver) + exprs_stores(
            tps.last().children@,
            receiver,
        )
    }
}

/// The findings in a statement of a method body, in source order. A nested function or
/// class is a scope of its own and is not entered.
pub open spec fn stmt_stores(s: Stmt, receiver: Seq<char>) -> Seq<DiagnosticView>
    decreases s,
{
    match s {
        Stmt::Return { value, .. } => optional_stores(value, receiver),
        Stmt::Delete { targets, .. } => exprs_stores(targets@, receiver),
        Stmt::Assign { targets, value, .. } => exprs_stores(targets@, receiver)
            + expr_stores(value, receiver),
        Stmt::AugAssign { target, value, .. } => expr_stores(target, receiver)
            + expr_stores(value, receiver),
        Stmt::AnnAssign { target, annotation, value, .. } => expr_stores(target, receiver)
            + expr_stores(annotation, receiver) + optional_stores(value, receiver),
        Stmt::TypeAlias { name, type_params, value, .. } => expr_stores(name, receiver)
            + type_params_stores(type_params@, receiver) + expr_stores(
            value,
            receiver,
        ),
        Stmt::For { target, iter, body: inner, orelse, .. } => expr_stores(
            target,
            receiver,
        ) + expr_stores(iter, receiver) + stmts_stores(inner@, receiver)
            + stmts_stores(orelse@, receiver),
        Stmt::While { test, body: inner, orelse, .. } => expr_stores(test, receiver)
            + stmts_stores(inner@, receiver) + stmts_stores(orelse@, receiver),
        Stmt::If { test, body: inner, clauses, .. } => expr_stores(test, receiver)
            + stmts_stores(inner@, receiver) + clauses_stores(clauses@, receiver),
        Stmt::With { items, body: inner, .. } => items_stores(items@, receiver)
            + stmts_stores(inner@, receiver),
        Stmt::Match { subject, cases, .. } => expr_stores(subject, receiver)
            + cases_stores(cases@, receiver),
        Stmt::Raise { exc, cause, .. } => optional_stores(exc, receiver) + optional_stores(
            cause,
            receiver,
        ),
        Stmt::Try { body: inner, handlers, orelse, finalbody, .. } => stmts_stores(
            inner@,
            receiver,
        ) + handlers_stores(handlers@, receiver) + stmts_stores(orelse@, receiver)
            + stmts_stores(finalbody@, receiver),
        Stmt::Assert { test, msg, .. } => expr_stores(test, receiver)
            + optional_stores(msg, receiver),
        Stmt::Expr { value, .. } => expr_stores(value, receiver),
        _ => seq![],
    }
}

pub open spec fn stmts_stores(ss: Seq<Stmt>, receiver: Seq<char>) -> Seq<
    DiagnosticView,
>
    decreases ss,
{
    if ss.len() == 0 {
        seq![]
    } else {
        stmts_stores(ss.drop_last(), receiver) + stmt_stores(ss.last(), receiver)
    }
}

pub open spec fn clauses_stores(cs: Seq<ElifElseClause>, receiver: Seq<char>) -> Seq<
    DiagnosticView,
>
    decreases cs,
{
    if cs.len() == 0 {
        seq![]
    } else {
        clauses_stores(cs.drop_last(), receiver) + optional_stores(
            cs.last().test,
            receiver,
        ) + stmts_stores(cs.last().body@, receiver)
    }
}

pub open spec fn items_stores(items: Seq<WithItem>, receiver: Seq<char>) -> Seq<
    DiagnosticView,
>
    decreases items,
{
    if items.len() == 0 {
        seq![]
    } else {
        items_stores(items.drop_last(), receiver) + expr_stores(
            items.last().context_expr,
            receiver,
        ) + optional_stores(items.last().optional_vars, receiver)
    }
}

pub open spec fn cases_stores(cases: Seq<MatchCase>, receiver: Seq<char>) -> Seq<
    DiagnosticView,
>
    decreases cases,
{
    if cases.len() == 0 {
        seq![]
    } else {
        cases_stores(cases.drop_last(), receiver) + optional_stores(
            cases.last().guard,
            receiver,
        ) + stmts_stores(cases.last().body@, receiver)
    }
}

pub open spec fn handlers_stores(hs: Seq<ExceptHandler>, receiver: Seq<char>) -> Seq<
    DiagnosticView,
>
    decreases hs,
{
    if hs.len() == 0 {
        seq![]
    } else {
        handlers_stores(hs.drop_last(), receiver) + boxed_stores(
            hs.last().type_,
            receiver,
        ) + stmts_stores(hs.last().body@, receiver)
    }
}

/// The decorator is the bare name `expected`.
pub open spec fn is_bare_name(d: Expr, expected: Seq<char>) -> bool {
    d matches Expr::Name { id, .. } && id@ == expected
}

/// The decorator is `@<anything>.setter`.
pub open spec fn is_setter(d: Expr) -> bool {
    d matches Expr::Attribute { attr, .. } && attr.id@ == "setter"@
}

/// A method with no instance receiver to check: a static method, a class method, or a
/// property setter.
pub open spec fn is_skipped_method(f: FunctionDef) -> bool {
    exists|j: int|
        0 <= j < f.decorators@.len() && (is_bare_name(#[trigger] f.decorators@[j], "staticmethod"@)
            || is_bare_name(f.decorators@[j], "classmethod"@) || is_setter(f.decorators@[j]))
}

/// The findings of a method: the stores on its first positional parameter.
pub open spec fn method_findings(f: FunctionDef) -> Seq<DiagnosticView> {
    if is_skipped_method(f) {
        seq![]
    } else {
        match receiver_of(f) {
            Some(receiver) => stmts_stores(f.body@, receiver),
            None => seq![],
        }
    }
}

/// The findings of a statement of a class body: a method's, or a nested class's members'.
pub open spec fn member_findings(s: Stmt) -> Seq<DiagnosticView>
    decreases s, 1int, 0int,
{
    match s {
        Stmt::FunctionDef(f) => method_findings(f),
        Stmt::ClassDef(_) => members_findings(s, children(s).len() as int),
        _ => seq![],
    }
}

/// The findings of the first `j` members of the class `s`.
pub open spec fn members_findings(s: Stmt, j: int) -> Seq<DiagnosticView>
    decreases s, 0int, j,
{
    if j <= 0 || j > children(s).len() {
        seq![]
    } else {
        proof {
            lemma_children_decrease(s, j - 1);
        }
        members_findings(s, j - 1) + member_findings(children(s)[j - 1])
    }
}

/// The findings of a module statement: those of a class, with the classes nested in its
/// body; a function or other statement outside a class has no receiver.
pub open spec fn module_statement_findings(s: Stmt) -> Seq<DiagnosticView> {
    match s {
        Stmt::ClassDef(_) => member_findings(s),
        _ => seq![],
    }
}

/// The check over a module, class after class in source order.
pub open spec fn public_attribute_properties(module: Seq<Stmt>) -> Seq<DiagnosticView>
    decreases module.len(),
{
    if module.len() == 0 {
        seq![]
    } else {
        public_attribute_properties(module.drop_last()) + module_statement_findings(module.last())
    }
}

// Executable counterparts.

fn push_attribute_store(
    out: &mut Vec<Diagnostic>,
    value: &Expr,
    attr: &Identifier,
    ctx: ExprContext,
    range: TextRange,
    receiver: &Vec<char>,
)
    ensures
        diagnostic_views(final(out)@) == diagnostic_views(old(out)@) + attribute_store(
            *value,
            *attr,
            ctx,
            range,
            receiver@,
        ),
{
    let ghost start = diagnostic_views(out@);
    let name = to_chars(attr.id.as_str());
    let public = !(name.len() > 0 && name[0] == '_');
    let on_receiver = match value {
        Expr::Name { id, .. } => chars_eq(&to_chars(id.as_str()), receiver),
        _ => false,
    };
    if ctx == ExprContext::Store && public && on_receiver {
        let mut message: Vec<char> = Vec::new();
        push_str(&mut message, "Public instance attribute `");
        push_str(&mut message, attr.id.as_str());
        push_str(&mut message, "` must use underscore-prefixed storage and an explicit property");
        out.push(Diagnostic { message, range, noqa_offset: Some(range.start) });
    }
    assert(diagnostic_views(out@) =~= start + attribute_store(*value, *attr, ctx, range, receiver@));
}

fn expr_stores_exec(e: &Expr, receiver: &Vec<char>, out: &mut Vec<Diagnostic>)
    ensures
        diagnostic_views(final(out)@) == diagnostic_views(old(out)@) + expr_stores(
            *e,
            receiver@,
        ),
    decreases e,
{
    let ghost start = diagnostic_views(out@);
    match e {
        Expr::Attribute { value, attr, ctx, range } => {
            push_attribute_store(out, value, attr, *ctx, *range, receiver);
            expr_stores_exec(value, receiver, out);
        },
        Expr::Subscript { value, slice, .. } => {
            expr_stores_exec(value, receiver, out);
            expr_stores_exec(slice, receiver, out);
        },
        Expr::Starred { value, .. } => expr_stores_exec(value, receiver, out),
        Expr::List { elts, .. } => exprs_stores_exec(elts, receiver, out),
        Expr::Tuple { elts, .. } => exprs_stores_exec(elts, receiver, out),
        Expr::Dict { items, .. } => exprs_stores_exec(items, receiver, out),
        Expr::Call { func, arguments, .. } => {
            expr_stores_exec(func, receiver, out);
            exprs_stores_exec(arguments, receiver, out);
        },
        Expr::Compare { left, comparators, .. } => {
            expr_stores_exec(left, receiver, out);
            exprs_stores_exec(comparators, receiver, out);
        },
        Expr::UnaryOp { operand, .. } => expr_stores_exec(operand, receiver, out),
        Expr::Named { target, value, .. } => {
            expr_stores_exec(target, receiver, out);
            expr_stores_exec(value, receiver, out);
        },
        Expr::Comprehension { parts, .. } => exprs_stores_exec(parts, receiver, out),
        Expr::Other { children, .. } => exprs_stores_exec(children, receiver, out),
        _ => {},
    }
    assert(diagnostic_views(out@) =~= start + expr_stores(*e, receiver@));
}

fn exprs_stores_exec(
    es: &Vec<Expr>,
    receiver: &Vec<char>,
    out: &mut Vec<Diagnostic>,
)
    ensures
        diagnostic_views(final(out)@) == diagnostic_views(old(out)@) + exprs_stores(
            es@,
            receiver@,
        ),
    decreases es@,
{
    let ghost start = diagnostic_views(out@);
    let mut i: usize = 0;
    assert(es@.take(0) =~= Seq::<Expr>::empty());
    assert(diagnostic_views(out@) =~= start + exprs_stores(es@.take(0), receiver@));
    while i < es.len()
        invariant
            0 <= i <= es@.len(),
            diagnostic_views(out@) == start + exprs_stores(es@.take(i as int), receiver@),
        decreases es@.len() - i,
    {
        assert(es@.take(i + 1).drop_last() =~= es@.take(i as int));
        assert(es@.take(i + 1).last() == es@[i as int]);
        proof {
            assert(decreases_to!(es@ => es@[i as int]));
        }
        expr_stores_exec(&es[i], receiver, out);
        i = i + 1;
    }
    assert(es@.take(es@.len() as int) =~= es@);
}

fn optional_stores_exec(e: &Option<Expr>, receiver: &Vec<char>, out: &mut Vec<Diagnostic>)
    ensures
        diagnostic_views(final(out)@) == diagnostic_views(old(out)@) + optional_stores(
            *e,
            receiver@,
        ),
    decreases e,
{
    match e {
        Some(x) => expr_stores_exec(x, receiver, out),
        None => {
            assert(diagnostic_views(out@) =~= diagnostic_views(out@) + Seq::<DiagnosticView>::empty());
        },
    }
}

fn boxed_stores_exec(e: &Option<Box<Expr>>, receiver: &Vec<char>, out: &mut Vec<Diagnostic>)
    ensures
        diagnostic_views(final(out)@) == diagnostic_views(old(out)@) + boxed_stores(
            *e,
            receiver@,
        ),
    decreases e,
{
    match e {
        Some(x) => expr_stores_exec(x, receiver, out),
        None => {
            assert(diagnostic_views(out@) =~= diagnostic_views(out@) + Seq::<DiagnosticView>::empty());
        },
    }
}

fn type_params_stores_exec(
    tps: &Vec<TypeParam>,
    receiver: &Vec<char>,
    out: &mut Vec<Diagnostic>,
)
    ensures
        diagnostic_views(final(out)@) == diagnostic_views(old(out)@) + type_params_stores(
            tps@,
            receiver@,
        ),
    decreases tps@,
{
    let ghost start = diagnostic_views(out@);
    let mut i: usize = 0;
    assert(tps@.take(0) =~= Seq::<TypeParam>::empty());
    assert(diagnostic_views(out@) =~= start + type_params_stores(tps@.take(0), receiver@));
    while i < tps.len()
        invariant
            0 <= i <= tps@.len(),
            diagnostic_views(out@) == start + type_params_stores(tps@.take(i as int), receiver@),
        decreases tps@.len() - i,
    {
        assert(tps@.take(i + 1).drop_last() =~= tps@.take(i as int));
        assert(tps@.take(i + 1).last() == tps@[i as int]);
        proof {
            assert(decreases_to!(tps@ => tps@[i as int]));
        }
        exprs_stores_exec(&tps[i].children, receiver, out);
        i = i + 1;
    }
    assert(tps@.take(tps@.len() as int) =~= tps@);
}

fn stmt_stores_exec(s: &Stmt, receiver: &Vec<char>, out: &mut Vec<Diagnostic>)
    ensures
        diagnostic_views(final(out)@) == diagnostic_views(old(out)@) + stmt_stores(
            *s,
            receiver@,
        ),
    decreases s,
{
    let ghost start = diagnostic_views(out@);
    match s {
        Stmt::Return { value, .. } => optional_stores_exec(value, receiver, out),
        Stmt::Delete { targets, .. } => exprs_stores_exec(targets, receiver, out),
        Stmt::Assign { targets, value, .. } => {
            exprs_stores_exec(targets, receiver, out);
            expr_stores_exec(value, receiver, out);
        },
        Stmt::AugAssign { target, value, .. } => {
            expr_stores_exec(target, receiver, out);
            expr_stores_exec(value, receiver, out);
        },
        Stmt::AnnAssign { target, annotation, value, .. } => {
            expr_stores_exec(target, receiver, out);
            expr_stores_exec(annotation, receiver, out);
            optional_stores_exec(value, receiver, out);
        },
        Stmt::TypeAlias { name, type_params, value, .. } => {
            expr_stores_exec(name, receiver, out);
            type_params_stores_exec(type_params, receiver, out);
            expr_stores_exec(value, receiver, out);
        },
        Stmt::For { target, iter, body: inner, orelse, .. } => {
            expr_stores_exec(target, receiver, out);
            expr_stores_exec(iter, receiver, out);
            stmts_stores_exec(inner, receiver, out);
            stmts_stores_exec(orelse, receiver, out);
        },
        Stmt::While { test, body: inner, orelse, .. } => {
            expr_stores_exec(test, receiver, out);
            stmts_stores_exec(inner, receiver, out);
            stmts_stores_exec(orelse, receiver, out);
        },
        Stmt::If { test, body: inner, clauses, .. } => {
            expr_stores_exec(test, receiver, out);
            stmts_stores_exec(inner, receiver, out);
            clauses_stores_exec(clauses, receiver, out);
        },
        Stmt::With { items, body: inner, .. } => {
            items_stores_exec(items, receiver, out);
            stmts_stores_exec(inner, receiver, out);
        },
        Stmt::Match { subject, cases, .. } => {
            expr_stores_exec(subject, receiver, out);
            cases_stores_exec(cases, receiver, out);
        },
        Stmt::Raise { exc, cause, .. } => {
            optional_stores_exec(exc, receiver, out);
            optional_stores_exec(cause, receiver, out);
        },
        Stmt::Try { body: inner, handlers, orelse, finalbody, .. } => {
            stmts_stores_exec(inner, receiver, out);
            handlers_stores_exec(handlers, receiver, out);
            stmts_stores_exec(orelse, receiver, out);
            stmts_stores_exec(finalbody, receiver, out);
        },
        Stmt::Assert { test, msg, .. } => {
            expr_stores_exec(test, receiver, out);
            optional_stores_exec(msg, receiver, out);
        },
        Stmt::Expr { value, .. } => expr_stores_exec(value, receiver, out),
        _ => {},
    }
    assert(diagnostic_views(out@) =~= start + stmt_stores(*s, receiver@));
}

fn stmts_stores_exec(ss: &Vec<Stmt>, receiver: &Vec<char>, out: &mut Vec<Diagnostic>)
    ensures
        diagnostic_views(final(out)@) == diagnostic_views(old(out)@) + stmts_stores(
            ss@,
            receiver@,
        ),
    decreases ss@,
{
    let ghost start = diagnostic_views(out@);
    let mut i: usize = 0;
    assert(ss@.take(0) =~= Seq::<Stmt>::empty());
    assert(diagnostic_views(out@) =~= start + stmts_stores(ss@.take(0), receiver@));
    while i < ss.len()
        invariant
            0 <= i <= ss@.len(),
            diagnostic_views(out@) == start + stmts_stores(ss@.take(i as int), receiver@),
        decreases ss@.len() - i,
    {
        assert(ss@.take(i + 1).drop_last() =~= ss@.take(i as int));
        assert(ss@.take(i + 1).last() == ss@[i as int]);
        proof {
            assert(decreases_to!(ss@ => ss@[i as int]));
        }
        stmt_stores_exec(&ss[i], receiver, out);
        i = i + 1;
    }
    assert(ss@.take(ss@.len() as int) =~= ss@);
}

fn clauses_stores_exec(
    cs: &Vec<ElifElseClause>,
    receiver: &Vec<char>,
    out: &mut Vec<Diagnostic>,
)
    ensures
        diagnostic_views(final(out)@) == diagnostic_views(old(out)@) + clauses_stores(
            cs@,
            receiver@,
        ),
    decreases cs@,
{
    let ghost start = diagnostic_views(out@);
    let mut i: usize = 0;
    assert(cs@.take(0) =~= Seq::<ElifElseClause>::empty());
    assert(diagnostic_views(out@) =~= start + clauses_stores(cs@.take(0), receiver@));
    while i < cs.len()
        invariant
            0 <= i <= cs@.len(),
            diagnostic_views(out@) == start + clauses_stores(cs@.take(i as int), receiver@),
        decreases cs@.len() - i,
    {
        assert(cs@.take(i + 1).drop_last() =~= cs@.take(i as int));
        assert(cs@.take(i + 1).last() == cs@[i as int]);
        proof {
            assert(decreases_to!(cs@ => cs@[i as int]));
        }
        optional_stores_exec(&cs[i].test, receiver, out);
        stmts_stores_exec(&cs[i].body, receiver, out);
        i = i + 1;
    }
    assert(cs@.take(cs@.len() as int) =~= cs@);
}

fn items_stores_exec(items: &Vec<WithItem>, receiver: &Vec<char>, out: &mut Vec<Diagnostic>)
    ensures
        diagnostic_views(final(out)@) == diagnostic_views(old(out)@) + items_stores(
            items@,
            receiver@,
        ),
    decreases items@,
{
    let ghost start = diagnostic_views(out@);
    let mut i: usize = 0;
    assert(items@.take(0) =~= Seq::<WithItem>::empty());
    assert(diagnostic_views(out@) =~= start + items_stores(items@.take(0), receiver@));
    while i < items.len()
        invariant
            0 <= i <= items@.len(),
            diagnostic_views(out@) == start + items_stores(items@.take(i as int), receiver@),
        decreases items@.len() - i,
    {
        assert(items@.take(i + 1).drop_last() =~= items@.take(i as int));
        assert(items@.take(i + 1).last() == items@[i as int]);
        proof {
            assert(decreases_to!(items@ => items@[i as int]));
        }
        expr_stores_exec(&items[i].context_expr, receiver, out);
        optional_stores_exec(&items[i].optional_vars, receiver, out);
        i = i + 1;
    }
    assert(items@.take(items@.len() as int) =~= items@);
}

fn cases_stores_exec(cases: &Vec<MatchCase>, receiver: &Vec<char>, out: &mut Vec<Diagnostic>)
    ensures
        diagnostic_views(final(out)@) == diagnostic_views(old(out)@) + cases_stores(
            cases@,
            receiver@,
        ),
    decreases cases@,
{
    let ghost start = diagnostic_views(out@);
    let mut i: usize = 0;
    assert(cases@.take(0) =~= Seq::<MatchCase>::empty());
    assert(diagnostic_views(out@) =~= start + cases_stores(cases@.take(0), receiver@));
    while i < cases.len()
        invariant
            0 <= i <= cases@.len(),
            diagnostic_views(out@) == start + cases_stores(cases@.take(i as int), receiver@),
        decreases cases@.len() - i,
    {
        assert(cases@.take(i + 1).drop_last() =~= cases@.take(i as int));
        assert(cases@.take(i + 1).last() == cases@[i as int]);
        proof {
            assert(decreases_to!(cases@ => cases@[i as int]));
        }
        optional_stores_exec(&cases[i].guard, receiver, out);
        stmts_stores_exec(&cases[i].body, receiver, out);
        i = i + 1;
    }
    assert(cases@.take(cases@.len() as int) =~= cases@);
}

fn handlers_stores_exec(
    hs: &Vec<ExceptHandler>,
    receiver: &Vec<char>,
    out: &mut Vec<Diagnostic>,
)
    ensures
        diagnostic_views(final(out)@) == diagnostic_views(old(out)@) + handlers_stores(
            hs@,
            receiver@,
        ),
    decreases hs@,
{
    let ghost start = diagnostic_views(out@);
    let mut i: usize = 0;
    assert(hs@.take(0) =~= Seq::<ExceptHandler>::empty());
    assert(diagnostic_views(out@) =~= start + handlers_stores(hs@.take(0), receiver@));
    while i < hs.len()
        invariant
            0 <= i <= hs@.len(),
            diagnostic_views(out@) == start + handlers_stores(hs@.take(i as int), receiver@),
        decreases hs@.len() - i,
    {
        assert(hs@.take(i + 1).drop_last() =~= hs@.take(i as int));
        assert(hs@.take(i + 1).last() == hs@[i as int]);
        proof {
            assert(decreases_to!(hs@ => hs@[i as int]));
        }
        boxed_stores_exec(&hs[i].type_, receiver, out);
        stmts_stores_exec(&hs[i].body, receiver, out);
        i = i + 1;
    }
    assert(hs@.take(hs@.len() as int) =~= hs@);
}

fn is_skipped_method_exec(f: &FunctionDef) -> (r: bool)
    ensures
        r == is_skipped_method(*f),
{
    let mut j: usize = 0;
    while j < f.decorators.len()
        invariant
            0 <= j <= f.decorators@.len(),
            forall|m: int|
                0 <= m < j ==> !(is_bare_name(#[trigger] f.decorators@[m], "staticmethod"@)
                    || is_bare_name(f.decorators@[m], "classmethod"@) || is_setter(f.decorators@[m])),
        decreases f.decorators@.len() - j,
    {
        let skipped = match &f.decorators[j] {
            Expr::Name { id, .. } => {
                let id = to_chars(id.as_str());
                chars_eq(&id, &to_chars("staticmethod")) || chars_eq(&id, &to_chars("classmethod"))
            },
            Expr::Attribute { attr, .. } => chars_eq(&to_chars(attr.id.as_str()), &to_chars("setter")),
            _ => false,
        };
        if skipped {
            return true;
        }
        j = j + 1;
    }
    false
}

fn method_findings_exec(f: &FunctionDef, out: &mut Vec<Diagnostic>)
    ensures
        diagnostic_views(final(out)@) == diagnostic_views(old(out)@) + method_findings(*f),
{
    let ghost start = diagnostic_views(out@);
    if !is_skipped_method_exec(f) {
        let first = if f.parameters.posonlyargs.len() > 0 {
            Some(&f.parameters.posonlyargs[0])
        } else if f.parameters.args.len() > 0 {
            Some(&f.parameters.args[0])
        } else {
            None
        };
        match first {
            Some(p) => {
                let receiver = to_chars(p.name.id.as_str());
                stmts_stores_exec(&f.body, &receiver, out);
            },
            None => {},
        }
    }
    assert(diagnostic_views(out@) =~= start + method_findings(*f));
}

fn member_findings_exec(s: &Stmt, out: &mut Vec<Diagnostic>)
    ensures
        diagnostic_views(final(out)@) == diagnostic_views(old(out)@) + member_findings(*s),
    decreases s,
{
    let ghost start = diagnostic_views(out@);
    match s {
        Stmt::FunctionDef(f) => method_findings_exec(f, out),
        Stmt::ClassDef(_) => {
            let kids = children_exec(s);
            let mut j: usize = 0;
            assert(diagnostic_views(out@) =~= start + members_findings(*s, 0));
            while j < kids.len()
                invariant
                    0 <= j <= kids@.len() == children(*s).len(),
                    s is ClassDef,
                    forall|m: int| 0 <= m < kids@.len() ==> *(#[trigger] kids@[m]) == children(*s)[m],
                    diagnostic_views(out@) == start + members_findings(*s, j as int),
                decreases kids@.len() - j,
            {
                proof {
                    lemma_children_decrease(*s, j as int);
                }
                member_findings_exec(kids[j], out);
                j = j + 1;
            }
        },
        _ => {
            assert(diagnostic_views(out@) =~= start + member_findings(*s));
        },
    }
}

/// The check over a module; see [`public_attribute_properties`].
pub fn check_public_attribute_properties(module: &Vec<Stmt>) -> (diagnostics: Vec<Diagnostic>)
    ensures
        diagnostic_views(diagnostics@) == public_attribute_properties(module@),
{
    let mut diagnostics: Vec<Diagnostic> = Vec::new();
    let mut i: usize = 0;
    while i < module.len()
        invariant
            0 <= i <= module@.len(),
            diagnostic_views(diagnostics@) == public_attribute_properties(module@.take(i as int)),
        decreases module@.len() - i,
    {
        match &module[i] {
            Stmt::ClassDef(_) => member_findings_exec(&module[i], &mut diagnostics),
            _ => {},
        }
        assert(module@.take(i + 1).drop_last() =~= module@.take(i as int));
        assert(module@.take(i + 1).last() == module@[i as int]);
        i = i + 1;
    }
    assert(module@.take(module@.len() as int) =~= module@);
    diagnostics
}

} // verus!
