//! GR012 explicit-instance-data: an instance method stores no public attribute on its
//! receiver unless the class declares a setter for that name.
use vstd::prelude::*;
use crate::rules::diagnostic_views;
use crate::rules::Diagnostic;
use crate::rules::DiagnosticView;
use crate::syntax::children;
use crate::syntax::children_exec;
use crate::syntax::lemma_children_decrease;
use crate::syntax::ClassDef;
use crate::syntax::ElifElseClause;
use crate::syntax::ExceptHandler;
use crate::syntax::Expr;
use crate::syntax::ExprContext;
use crate::syntax::FunctionDef;
use crate::syntax::Identifier;
use crate::syntax::MatchCase;
use crate::syntax::Stmt;
use crate::syntax::TypeParam;
use crate::syntax::WithItem;
use crate::text::chars_eq;
use crate::text::push_str;
use crate::text::to_chars;

verus! {

/// The expression names `expected` directly, or as an attribute of `builtins`.
pub open spec fn matches_builtin(e: Expr, expected: Seq<char>) -> bool {
    match e {
        Expr::Name { id, .. } => id@ == expected,
        Expr::Attribute { value, attr, .. } => attr.id@ == expected && (*value matches Expr::Name {
            id,
            ..
        } && id@ == "builtins"@),
        _ => false,
    }
}

/// The decorator is `@name.setter`, or `@Base.name.setter`.
pub open spec fn is_setter_of(d: Expr, name: Seq<char>) -> bool {
    match d {
        Expr::Attribute { value, attr, .. } => attr.id@ == "setter"@ && match *value {
            Expr::Name { id, .. } => id@ == name,
            Expr::Attribute { attr: base, .. } => base.id@ == name,
            _ => false,
        },
        _ => false,
    }
}

/// The statement is a method named `name` that declares a setter for that name.
pub open spec fn is_setter_method(s: Stmt, name: Seq<char>) -> bool {
    match s {
        Stmt::FunctionDef(f) => f.name.id@ == name && exists|j: int|
            0 <= j < f.decorators@.len() && is_setter_of(#[trigger] f.decorators@[j], name),
        _ => false,
    }
}

/// The statement is a method named `name` that declares a property or a setter.
pub open spec fn is_property_method(s: Stmt, name: Seq<char>) -> bool {
    match s {
        Stmt::FunctionDef(f) => f.name.id@ == name && exists|j: int|
            0 <= j < f.decorators@.len() && (matches_builtin(#[trigger] f.decorators@[j], "property"@)
                || is_setter_of(f.decorators@[j], name)),
        _ => false,
    }
}

/// The class body declares a setter for the name.
pub open spec fn declares_setter(body: Seq<Stmt>, name: Seq<char>) -> bool {
    exists|i: int| 0 <= i < body.len() && is_setter_method(#[trigger] body[i], name)
}

/// The class body declares a property (with or without a setter) for the name.
pub open spec fn declares_property(body: Seq<Stmt>, name: Seq<char>) -> bool {
    exists|i: int| 0 <= i < body.len() && is_property_method(#[trigger] body[i], name)
}

pub open spec fn instance_data_message(name: Seq<char>) -> Seq<char> {
    "Instance data field `"@ + name
        + "` is implicit; declare it as a dataclass field or expose it through a property."@
}

/// A public name does not start with an underscore.
pub open spec fn is_public_attribute(name: Seq<char>) -> bool {
    !(name.len() > 0 && name[0] == '_')
}

/// The finding for a store to `receiver.<attr>` in a method of a class with this body: a
/// store to a public attribute without a setter, where an annotation-only declaration of a
/// property is no store.
pub open spec fn attribute_store(
    value: Expr,
    attr: Identifier,
    ctx: ExprContext,
    receiver: Seq<char>,
    body: Seq<Stmt>,
    annotation_only: bool,
) -> Seq<DiagnosticView> {
    if ctx == ExprContext::Store && is_public_attribute(attr.id@) && (value matches Expr::Name {
        id,
        ..
    } && id@ == receiver) && !declares_setter(body, attr.id@) && !(annotation_only
        && declares_property(body, attr.id@)) {
        seq![
            DiagnosticView {
                message: instance_data_message(attr.id@),
                range: attr.range,
                noqa_offset: Some(attr.range.start),
            },
        ]
    } else {
        seq![]
    }
}

/// The findings in an expression, in source order; a lambda is a scope of its own and is
/// not entered.
pub open spec fn expr_stores(e: Expr, receiver: Seq<char>, body: Seq<Stmt>, ann: bool) -> Seq<
    DiagnosticView,
>
    decreases e,
{
    match e {
        Expr::Attribute { value, attr, ctx, .. } => attribute_store(
            *value,
            attr,
            ctx,
            receiver,
            body,
            ann,
        ) + expr_stores(*value, receiver, body, ann),
        Expr::Subscript { value, slice, .. } => expr_stores(*value, receiver, body, ann)
            + expr_stores(*slice, receiver, body, ann),
        Expr::Starred { value, .. } => expr_stores(*value, receiver, body, ann),
        Expr::List { elts, .. } => exprs_stores(elts@, receiver, body, ann),
        Expr::Tuple { elts, .. } => exprs_stores(elts@, receiver, body, ann),
        Expr::Dict { items, .. } => exprs_stores(items@, receiver, body, ann),
        Expr::Call { func, arguments, .. } => expr_stores(*func, receiver, body, ann)
            + exprs_stores(arguments@, receiver, body, ann),
        Expr::Compare { left, comparators, .. } => expr_stores(*left, receiver, body, ann)
            + exprs_stores(comparators@, receiver, body, ann),
        Expr::UnaryOp { operand, .. } => expr_stores(*operand, receiver, body, ann),
        Expr::Named { target, value, .. } => expr_stores(*target, receiver, body, ann)
            + expr_stores(*value, receiver, body, ann),
        Expr::Comprehension { parts, .. } => exprs_stores(parts@, receiver, body, ann),
        Expr::Other { children, .. } => exprs_stores(children@, receiver, body, ann),
        _ => seq![],
    }
}

pub open spec fn exprs_stores(es: Seq<Expr>, receiver: Seq<char>, body: Seq<Stmt>, ann: bool) -> Seq<
    DiagnosticView,
>
    decreases es,
{
    if es.len() == 0 {
        seq![]
    } else {
        exprs_stores(es.drop_last(), receiver, body, ann) + expr_stores(
            es.last(),
            receiver,
            body,
            ann,
        )
    }
}

pub open spec fn optional_stores(e: Option<Expr>, receiver: Seq<char>, body: Seq<Stmt>) -> Seq<
    DiagnosticView,
>
    decreases e,
{
    match e {
        Some(x) => expr_stores(x, receiver, body, false),
        None => seq![],
    }
}

pub open spec fn boxed_stores(e: Option<Box<Expr>>, receiver: Seq<char>, body: Seq<Stmt>) -> Seq<
    DiagnosticView,
>
    decreases e,
{
    match e {
        Some(x) => expr_stores(*x, receiver, body, false),
        None => seq![],
    }
}

pub open spec fn type_params_stores(tps: Seq<TypeParam>, receiver: Seq<char>, body: Seq<Stmt>) -> Seq<
    DiagnosticView,
>
    decreases tps,
{
    if tps.len() == 0 {
        seq![]
    } else {
        type_params_stores(tps.drop_last(), receiver, body) + exprs_stores(
            tps.last().children@,
            receiver,
            body,
            false,
        )
    }
}

/// The findings in a statement of a method body, in source order. A nested function or
/// class is a scope of its own and is not entered; an annotation-only declaration is
/// checked on its target alone.
pub open spec fn stmt_stores(s: Stmt, receiver: Seq<char>, body: Seq<Stmt>) -> Seq<DiagnosticView>
    decreases s,
{
    match s {
        Stmt::Return { value, .. } => optional_stores(value, receiver, body),
        Stmt::Delete { targets, .. } => exprs_stores(targets@, receiver, body, false),
        Stmt::Assign { targets, value, .. } => exprs_stores(targets@, receiver, body, false)
            + expr_stores(value, receiver, body, false),
        Stmt::AugAssign { target, value, .. } => expr_stores(target, receiver, body, false)
            + expr_stores(value, receiver, body, false),
        Stmt::AnnAssign { target, annotation, value, .. } => match value {
            None => expr_stores(target, receiver, body, true),
            Some(v) => expr_stores(target, receiver, body, false) + expr_stores(
                annotation,
                receiver,
                body,
                false,
            ) + expr_stores(v, receiver, body, false),
        },
        Stmt::TypeAlias { name, type_params, value, .. } => expr_stores(name, receiver, body, false)
            + type_params_stores(type_params@, receiver, body) + expr_stores(
            value,
            receiver,
            body,
            false,
        ),
        Stmt::For { target, iter, body: inner, orelse, .. } => expr_stores(
            target,
            receiver,
            body,
            false,
        ) + expr_stores(iter, receiver, body, false) + stmts_stores(inner@, receiver, body)
            + stmts_stores(orelse@, receiver, body),
        Stmt::While { test, body: inner, orelse, .. } => expr_stores(test, receiver, body, false)
            + stmts_stores(inner@, receiver, body) + stmts_stores(orelse@, receiver, body),
        Stmt::If { test, body: inner, clauses, .. } => expr_stores(test, receiver, body, false)
            + stmts_stores(inner@, receiver, body) + clauses_stores(clauses@, receiver, body),
        Stmt::With { items, body: inner, .. } => items_stores(items@, receiver, body)
            + stmts_stores(inner@, receiver, body),
        Stmt::Match { subject, cases, .. } => expr_stores(subject, receiver, body, false)
            + cases_stores(cases@, receiver, body),
        Stmt::Raise { exc, cause, .. } => optional_stores(exc, receiver, body) + optional_stores(
            cause,
            receiver,
            body,
        ),
        Stmt::Try { body: inner, handlers, orelse, finalbody, .. } => stmts_stores(
            inner@,
            receiver,
            body,
        ) + handlers_stores(handlers@, receiver, body) + stmts_stores(orelse@, receiver, body)
            + stmts_stores(finalbody@, receiver, body),
        Stmt::Assert { test, msg, .. } => expr_stores(test, receiver, body, false)
            + optional_stores(msg, receiver, body),
        Stmt::Expr { value, .. } => expr_stores(value, receiver, body, false),
        _ => seq![],
    }
}

pub open spec fn stmts_stores(ss: Seq<Stmt>, receiver: Seq<char>, body: Seq<Stmt>) -> Seq<
    DiagnosticView,
>
    decreases ss,
{
    if ss.len() == 0 {
        seq![]
    } else {
        stmts_stores(ss.drop_last(), receiver, body) + stmt_stores(ss.last(), receiver, body)
    }
}

pub open spec fn clauses_stores(cs: Seq<ElifElseClause>, receiver: Seq<char>, body: Seq<Stmt>) -> Seq<
    DiagnosticView,
>
    decreases cs,
{
    if cs.len() == 0 {
        seq![]
    } else {
        clauses_stores(cs.drop_last(), receiver, body) + optional_stores(
            cs.last().test,
            receiver,
            body,
        ) + stmts_stores(cs.last().body@, receiver, body)
    }
}

pub open spec fn items_stores(items: Seq<WithItem>, receiver: Seq<char>, body: Seq<Stmt>) -> Seq<
    DiagnosticView,
>
    decreases items,
{
    if items.len() == 0 {
        seq![]
    } else {
        items_stores(items.drop_last(), receiver, body) + expr_stores(
            items.last().context_expr,
            receiver,
            body,
            false,
        ) + optional_stores(items.last().optional_vars, receiver, body)
    }
}

pub open spec fn cases_stores(cases: Seq<MatchCase>, receiver: Seq<char>, body: Seq<Stmt>) -> Seq<
    DiagnosticView,
>
    decreases cases,
{
    if cases.len() == 0 {
        seq![]
    } else {
        cases_stores(cases.drop_last(), receiver, body) + optional_stores(
            cases.last().guard,
            receiver,
            body,
        ) + stmts_stores(cases.last().body@, receiver, body)
    }
}

pub open spec fn handlers_stores(hs: Seq<ExceptHandler>, receiver: Seq<char>, body: Seq<Stmt>) -> Seq<
    DiagnosticView,
>
    decreases hs,
{
    if hs.len() == 0 {
        seq![]
    } else {
        handlers_stores(hs.drop_last(), receiver, body) + boxed_stores(
            hs.last().type_,
            receiver,
            body,
        ) + stmts_stores(hs.last().body@, receiver, body)
    }
}

/// The hooks that receive the class even without a `classmethod` decorator.
pub open spec fn is_class_hook(name: Seq<char>) -> bool {
    name == "__new__"@ || name == "__init_subclass__"@ || name == "__class_getitem__"@
}

/// A method whose first parameter is no instance: a static or class method, or a class hook.
pub open spec fn is_excluded_method(f: FunctionDef) -> bool {
    is_class_hook(f.name.id@) || exists|j: int|
        0 <= j < f.decorators@.len() && (matches_builtin(#[trigger] f.decorators@[j], "staticmethod"@)
            || matches_builtin(f.decorators@[j], "classmethod"@))
}

/// The method's receiver: its first positional parameter.
pub open spec fn receiver_of(f: FunctionDef) -> Option<Seq<char>> {
    if f.parameters.posonlyargs@.len() > 0 {
        Some(f.parameters.posonlyargs@[0].name.id@)
    } else if f.parameters.args@.len() > 0 {
        Some(f.parameters.args@[0].name.id@)
    } else {
        None
    }
}

/// The findings of a statement of a class body: an instance method's stores on its receiver.
pub open spec fn method_stores(s: Stmt, body: Seq<Stmt>) -> Seq<DiagnosticView> {
    match s {
        Stmt::FunctionDef(f) => if is_excluded_method(f) {
            seq![]
        } else {
            match receiver_of(f) {
                Some(receiver) => stmts_stores(f.body@, receiver, body),
                None => seq![],
            }
        },
        _ => seq![],
    }
}

/// The findings of the first `k` statements of a class body.
pub open spec fn class_body_stores(body: Seq<Stmt>, k: int) -> Seq<DiagnosticView>
    decreases k,
{
    if k <= 0 || k > body.len() {
        seq![]
    } else {
        class_body_stores(body, k - 1) + method_stores(body[k - 1], body)
    }
}

pub open spec fn own_stores(s: Stmt) -> Seq<DiagnosticView> {
    match s {
        Stmt::ClassDef(c) => class_body_stores(c.body@, c.body@.len() as int),
        _ => seq![],
    }
}

/// The findings of a statement and of every class nested in it, each class on its own.
pub open spec fn instance_data_stmt(s: Stmt) -> Seq<DiagnosticView>
    decreases s, 1int, 0int,
{
    own_stores(s) + instance_data_children(s, children(s).len() as int)
}

pub open spec fn instance_data_children(s: Stmt, j: int) -> Seq<DiagnosticView>
    decreases s, 0int, j,
{
    if j <= 0 || j > children(s).len() {
        seq![]
    } else {
        proof {
            lemma_children_decrease(s, j - 1);
        }
        instance_data_children(s, j - 1) + instance_data_stmt(children(s)[j - 1])
    }
}

pub open spec fn instance_data_suite(stmts: Seq<Stmt>) -> Seq<DiagnosticView>
    decreases stmts.len(),
{
    if stmts.len() == 0 {
        seq![]
    } else {
        instance_data_suite(stmts.drop_last()) + instance_data_stmt(stmts.last())
    }
}

/// GR012 over a module: every class, at any depth, in source order.
pub open spec fn explicit_instance_data(module: Seq<Stmt>) -> Seq<DiagnosticView> {
    instance_data_suite(module)
}

// Executable counterparts.

fn name_is(e: &Expr, expected: &Vec<char>) -> (r: bool)
    ensures
        r == (*e matches Expr::Name { id, .. } && id@ == expected@),
{
    match e {
        Expr::Name { id, .. } => chars_eq(&to_chars(id.as_str()), expected),
        _ => false,
    }
}

fn matches_builtin_exec(e: &Expr, expected: &str) -> (r: bool)
    ensures
        r == matches_builtin(*e, expected@),
{
    let expected = to_chars(expected);
    match e {
        Expr::Name { id, .. } => chars_eq(&to_chars(id.as_str()), &expected),
        Expr::Attribute { value, attr, .. } => chars_eq(&to_chars(attr.id.as_str()), &expected)
            && name_is(value, &to_chars("builtins")),
        _ => false,
    }
}

fn is_setter_of_exec(d: &Expr, name: &Vec<char>) -> (r: bool)
    ensures
        r == is_setter_of(*d, name@),
{
    match d {
        Expr::Attribute { value, attr, .. } => {
            if !chars_eq(&to_chars(attr.id.as_str()), &to_chars("setter")) {
                return false;
            }
            match &**value {
                Expr::Name { id, .. } => chars_eq(&to_chars(id.as_str()), name),
                Expr::Attribute { attr: base, .. } => chars_eq(&to_chars(base.id.as_str()), name),
                _ => false,
            }
        },
        _ => false,
    }
}

/// Whether some decorator of the method is a setter for `name` (or, with `property`, a
/// `property` decorator).
fn has_decorator_for(f: &FunctionDef, name: &Vec<char>, property: bool) -> (r: bool)
    ensures
        r == exists|j: int|
            0 <= j < f.decorators@.len() && ((property && matches_builtin(
                #[trigger] f.decorators@[j],
                "property"@,
            )) || is_setter_of(f.decorators@[j], name@)),
{
    let mut j: usize = 0;
    while j < f.decorators.len()
        invariant
            0 <= j <= f.decorators@.len(),
            forall|m: int|
                0 <= m < j ==> !((property && matches_builtin(#[trigger] f.decorators@[m], "property"@))
                    || is_setter_of(f.decorators@[m], name@)),
        decreases f.decorators@.len() - j,
    {
        let d = &f.decorators[j];
        if (property && matches_builtin_exec(d, "property")) || is_setter_of_exec(d, name) {
            return true;
        }
        j = j + 1;
    }
    false
}

/// Whether the class body declares a setter (or, with `property`, a property) for `name`.
fn declares_exec(body: &Vec<Stmt>, name: &Vec<char>, property: bool) -> (r: bool)
    ensures
        r == if property {
            declares_property(body@, name@)
        } else {
            declares_setter(body@, name@)
        },
{
    let mut i: usize = 0;
    while i < body.len()
        invariant
            0 <= i <= body@.len(),
            forall|m: int|
                0 <= m < i ==> !(if property {
                    is_property_method(#[trigger] body@[m], name@)
                } else {
                    is_setter_method(body@[m], name@)
                }),
        decreases body@.len() - i,
    {
        match &body[i] {
            Stmt::FunctionDef(f) => {
                if chars_eq(&to_chars(f.name.id.as_str()), name) && has_decorator_for(
                    f,
                    name,
                    property,
                ) {
                    assert(if property {
                        is_property_method(body@[i as int], name@)
                    } else {
                        is_setter_method(body@[i as int], name@)
                    });
                    return true;
                }
            },
            _ => {},
        }
        i = i + 1;
    }
    false
}

fn push_attribute_store(
    out: &mut Vec<Diagnostic>,
    value: &Expr,
    attr: &Identifier,
    ctx: ExprContext,
    receiver: &Vec<char>,
    body: &Vec<Stmt>,
    ann: bool,
)
    ensures
        diagnostic_views(final(out)@) == diagnostic_views(old(out)@) + attribute_store(
            *value,
            *attr,
            ctx,
            receiver@,
            body@,
            ann,
        ),
{
    let ghost start = diagnostic_views(out@);
    let name = to_chars(attr.id.as_str());
    let public = !(name.len() > 0 && name[0] == '_');
    if ctx == ExprContext::Store && public && name_is(value, receiver) && !declares_exec(
        body,
        &name,
        false,
    ) && !(ann && declares_exec(body, &name, true)) {
        let mut message: Vec<char> = Vec::new();
        push_str(&mut message, "Instance data field `");
        push_str(&mut message, attr.id.as_str());
        push_str(
            &mut message,
            "` is implicit; declare it as a dataclass field or expose it through a property.",
        );
        out.push(
            Diagnostic { message, range: attr.range, noqa_offset: Some(attr.range.start) },
        );
    }
    assert(diagnostic_views(out@) =~= start + attribute_store(
        *value,
        *attr,
        ctx,
        receiver@,
        body@,
        ann,
    ));
}

fn expr_stores_exec(e: &Expr, receiver: &Vec<char>, body: &Vec<Stmt>, ann: bool, out: &mut Vec<Diagnostic>)
    ensures
        diagnostic_views(final(out)@) == diagnostic_views(old(out)@) + expr_stores(
            *e,
            receiver@,
            body@,
            ann,
        ),
    decreases e,
{
    let ghost start = diagnostic_views(out@);
    match e {
        Expr::Attribute { value, attr, ctx, .. } => {
            push_attribute_store(out, value, attr, *ctx, receiver, body, ann);
            expr_stores_exec(value, receiver, body, ann, out);
        },
        Expr::Subscript { value, slice, .. } => {
            expr_stores_exec(value, receiver, body, ann, out);
            expr_stores_exec(slice, receiver, body, ann, out);
        },
        Expr::Starred { value, .. } => expr_stores_exec(value, receiver, body, ann, out),
        Expr::List { elts, .. } => exprs_stores_exec(elts, receiver, body, ann, out),
        Expr::Tuple { elts, .. } => exprs_stores_exec(elts, receiver, body, ann, out),
        Expr::Dict { items, .. } => exprs_stores_exec(items, receiver, body, ann, out),
        Expr::Call { func, arguments, .. } => {
            expr_stores_exec(func, receiver, body, ann, out);
            exprs_stores_exec(arguments, receiver, body, ann, out);
        },
        Expr::Compare { left, comparators, .. } => {
            expr_stores_exec(left, receiver, body, ann, out);
            exprs_stores_exec(comparators, receiver, body, ann, out);
        },
        Expr::UnaryOp { operand, .. } => expr_stores_exec(operand, receiver, body, ann, out),
        Expr::Named { target, value, .. } => {
            expr_stores_exec(target, receiver, body, ann, out);
            expr_stores_exec(value, receiver, body, ann, out);
        },
        Expr::Comprehension { parts, .. } => exprs_stores_exec(parts, receiver, body, ann, out),
        Expr::Other { children, .. } => exprs_stores_exec(children, receiver, body, ann, out),
        _ => {},
    }
    assert(diagnostic_views(out@) =~= start + expr_stores(*e, receiver@, body@, ann));
}

fn exprs_stores_exec(
    es: &Vec<Expr>,
    receiver: &Vec<char>,
    body: &Vec<Stmt>,
    ann: bool,
    out: &mut Vec<Diagnostic>,
)
    ensures
        diagnostic_views(final(out)@) == diagnostic_views(old(out)@) + exprs_stores(
            es@,
            receiver@,
            body@,
            ann,
        ),
    decreases es@,
{
    let ghost start = diagnostic_views(out@);
    let mut i: usize = 0;
    assert(es@.take(0) =~= Seq::<Expr>::empty());
    assert(diagnostic_views(out@) =~= start + exprs_stores(es@.take(0), receiver@, body@, ann));
    while i < es.len()
        invariant
            0 <= i <= es@.len(),
            diagnostic_views(out@) == start + exprs_stores(es@.take(i as int), receiver@, body@, ann),
        decreases es@.len() - i,
    {
        assert(es@.take(i + 1).drop_last() =~= es@.take(i as int));
        assert(es@.take(i + 1).last() == es@[i as int]);
        proof {
            assert(decreases_to!(es@ => es@[i as int]));
        }
        expr_stores_exec(&es[i], receiver, body, ann, out);
        i = i + 1;
    }
    assert(es@.take(es@.len() as int) =~= es@);
}

fn optional_stores_exec(e: &Option<Expr>, receiver: &Vec<char>, body: &Vec<Stmt>, out: &mut Vec<Diagnostic>)
    ensures
        diagnostic_views(final(out)@) == diagnostic_views(old(out)@) + optional_stores(
            *e,
            receiver@,
            body@,
        ),
    decreases e,
{
    match e {
        Some(x) => expr_stores_exec(x, receiver, body, false, out),
        None => {
            assert(diagnostic_views(out@) =~= diagnostic_views(out@) + Seq::<DiagnosticView>::empty());
        },
    }
}

fn boxed_stores_exec(e: &Option<Box<Expr>>, receiver: &Vec<char>, body: &Vec<Stmt>, out: &mut Vec<Diagnostic>)
    ensures
        diagnostic_views(final(out)@) == diagnostic_views(old(out)@) + boxed_stores(
            *e,
            receiver@,
            body@,
        ),
    decreases e,
{
    match e {
        Some(x) => expr_stores_exec(x, receiver, body, false, out),
        None => {
            assert(diagnostic_views(out@) =~= diagnostic_views(out@) + Seq::<DiagnosticView>::empty());
        },
    }
}

fn type_params_stores_exec(
    tps: &Vec<TypeParam>,
    receiver: &Vec<char>,
    body: &Vec<Stmt>,
    out: &mut Vec<Diagnostic>,
)
    ensures
        diagnostic_views(final(out)@) == diagnostic_views(old(out)@) + type_params_stores(
            tps@,
            receiver@,
            body@,
        ),
    decreases tps@,
{
    let ghost start = diagnostic_views(out@);
    let mut i: usize = 0;
    assert(tps@.take(0) =~= Seq::<TypeParam>::empty());
    assert(diagnostic_views(out@) =~= start + type_params_stores(tps@.take(0), receiver@, body@));
    while i < tps.len()
        invariant
            0 <= i <= tps@.len(),
            diagnostic_views(out@) == start + type_params_stores(tps@.take(i as int), receiver@, body@),
        decreases tps@.len() - i,
    {
        assert(tps@.take(i + 1).drop_last() =~= tps@.take(i as int));
        assert(tps@.take(i + 1).last() == tps@[i as int]);
        proof {
            assert(decreases_to!(tps@ => tps@[i as int]));
        }
        exprs_stores_exec(&tps[i].children, receiver, body, false, out);
        i = i + 1;
    }
    assert(tps@.take(tps@.len() as int) =~= tps@);
}

fn stmt_stores_exec(s: &Stmt, receiver: &Vec<char>, body: &Vec<Stmt>, out: &mut Vec<Diagnostic>)
    ensures
        diagnostic_views(final(out)@) == diagnostic_views(old(out)@) + stmt_stores(
            *s,
            receiver@,
            body@,
        ),
    decreases s,
{
    let ghost start = diagnostic_views(out@);
    match s {
        Stmt::Return { value, .. } => optional_stores_exec(value, receiver, body, out),
        Stmt::Delete { targets, .. } => exprs_stores_exec(targets, receiver, body, false, out),
        Stmt::Assign { targets, value, .. } => {
            exprs_stores_exec(targets, receiver, body, false, out);
            expr_stores_exec(value, receiver, body, false, out);
        },
        Stmt::AugAssign { target, value, .. } => {
            expr_stores_exec(target, receiver, body, false, out);
            expr_stores_exec(value, receiver, body, false, out);
        },
        Stmt::AnnAssign { target, annotation, value, .. } => match value {
            None => expr_stores_exec(target, receiver, body, true, out),
            Some(v) => {
                expr_stores_exec(target, receiver, body, false, out);
                expr_stores_exec(annotation, receiver, body, false, out);
                expr_stores_exec(v, receiver, body, false, out);
            },
        },
        Stmt::TypeAlias { name, type_params, value, .. } => {
            expr_stores_exec(name, receiver, body, false, out);
            type_params_stores_exec(type_params, receiver, body, out);
            expr_stores_exec(value, receiver, body, false, out);
        },
        Stmt::For { target, iter, body: inner, orelse, .. } => {
            expr_stores_exec(target, receiver, body, false, out);
            expr_stores_exec(iter, receiver, body, false, out);
            stmts_stores_exec(inner, receiver, body, out);
            stmts_stores_exec(orelse, receiver, body, out);
        },
        Stmt::While { test, body: inner, orelse, .. } => {
            expr_stores_exec(test, receiver, body, false, out);
            stmts_stores_exec(inner, receiver, body, out);
            stmts_stores_exec(orelse, receiver, body, out);
        },
        Stmt::If { test, body: inner, clauses, .. } => {
            expr_stores_exec(test, receiver, body, false, out);
            stmts_stores_exec(inner, receiver, body, out);
            clauses_stores_exec(clauses, receiver, body, out);
        },
        Stmt::With { items, body: inner, .. } => {
            items_stores_exec(items, receiver, body, out);
            stmts_stores_exec(inner, receiver, body, out);
        },
        Stmt::Match { subject, cases, .. } => {
            expr_stores_exec(subject, receiver, body, false, out);
            cases_stores_exec(cases, receiver, body, out);
        },
        Stmt::Raise { exc, cause, .. } => {
            optional_stores_exec(exc, receiver, body, out);
            optional_stores_exec(cause, receiver, body, out);
        },
        Stmt::Try { body: inner, handlers, orelse, finalbody, .. } => {
            stmts_stores_exec(inner, receiver, body, out);
            handlers_stores_exec(handlers, receiver, body, out);
            stmts_stores_exec(orelse, receiver, body, out);
            stmts_stores_exec(finalbody, receiver, body, out);
        },
        Stmt::Assert { test, msg, .. } => {
            expr_stores_exec(test, receiver, body, false, out);
            optional_stores_exec(msg, receiver, body, out);
        },
        Stmt::Expr { value, .. } => expr_stores_exec(value, receiver, body, false, out),
        _ => {},
    }
    assert(diagnostic_views(out@) =~= start + stmt_stores(*s, receiver@, body@));
}

fn stmts_stores_exec(ss: &Vec<Stmt>, receiver: &Vec<char>, body: &Vec<Stmt>, out: &mut Vec<Diagnostic>)
    ensures
        diagnostic_views(final(out)@) == diagnostic_views(old(out)@) + stmts_stores(
            ss@,
            receiver@,
            body@,
        ),
    decreases ss@,
{
    let ghost start = diagnostic_views(out@);
    let mut i: usize = 0;
    assert(ss@.take(0) =~= Seq::<Stmt>::empty());
    assert(diagnostic_views(out@) =~= start + stmts_stores(ss@.take(0), receiver@, body@));
    while i < ss.len()
        invariant
            0 <= i <= ss@.len(),
            diagnostic_views(out@) == start + stmts_stores(ss@.take(i as int), receiver@, body@),
        decreases ss@.len() - i,
    {
        assert(ss@.take(i + 1).drop_last() =~= ss@.take(i as int));
        assert(ss@.take(i + 1).last() == ss@[i as int]);
        proof {
            assert(decreases_to!(ss@ => ss@[i as int]));
        }
        stmt_stores_exec(&ss[i], receiver, body, out);
        i = i + 1;
    }
    assert(ss@.take(ss@.len() as int) =~= ss@);
}

fn clauses_stores_exec(
    cs: &Vec<ElifElseClause>,
    receiver: &Vec<char>,
    body: &Vec<Stmt>,
    out: &mut Vec<Diagnostic>,
)
    ensures
        diagnostic_views(final(out)@) == diagnostic_views(old(out)@) + clauses_stores(
            cs@,
            receiver@,
            body@,
        ),
    decreases cs@,
{
    let ghost start = diagnostic_views(out@);
    let mut i: usize = 0;
    assert(cs@.take(0) =~= Seq::<ElifElseClause>::empty());
    assert(diagnostic_views(out@) =~= start + clauses_stores(cs@.take(0), receiver@, body@));
    while i < cs.len()
        invariant
            0 <= i <= cs@.len(),
            diagnostic_views(out@) == start + clauses_stores(cs@.take(i as int), receiver@, body@),
        decreases cs@.len() - i,
    {
        assert(cs@.take(i + 1).drop_last() =~= cs@.take(i as int));
        assert(cs@.take(i + 1).last() == cs@[i as int]);
        proof {
            assert(decreases_to!(cs@ => cs@[i as int]));
        }
        optional_stores_exec(&cs[i].test, receiver, body, out);
        stmts_stores_exec(&cs[i].body, receiver, body, out);
        i = i + 1;
    }
    assert(cs@.take(cs@.len() as int) =~= cs@);
}

fn items_stores_exec(items: &Vec<WithItem>, receiver: &Vec<char>, body: &Vec<Stmt>, out: &mut Vec<Diagnostic>)
    ensures
        diagnostic_views(final(out)@) == diagnostic_views(old(out)@) + items_stores(
            items@,
            receiver@,
            body@,
        ),
    decreases items@,
{
    let ghost start = diagnostic_views(out@);
    let mut i: usize = 0;
    assert(items@.take(0) =~= Seq::<WithItem>::empty());
    assert(diagnostic_views(out@) =~= start + items_stores(items@.take(0), receiver@, body@));
    while i < items.len()
        invariant
            0 <= i <= items@.len(),
            diagnostic_views(out@) == start + items_stores(items@.take(i as int), receiver@, body@),
        decreases items@.len() - i,
    {
        assert(items@.take(i + 1).drop_last() =~= items@.take(i as int));
        assert(items@.take(i + 1).last() == items@[i as int]);
        proof {
            assert(decreases_to!(items@ => items@[i as int]));
        }
        expr_stores_exec(&items[i].context_expr, receiver, body, false, out);
        optional_stores_exec(&items[i].optional_vars, receiver, body, out);
        i = i + 1;
    }
    assert(items@.take(items@.len() as int) =~= items@);
}

fn cases_stores_exec(cases: &Vec<MatchCase>, receiver: &Vec<char>, body: &Vec<Stmt>, out: &mut Vec<Diagnostic>)
    ensures
        diagnostic_views(final(out)@) == diagnostic_views(old(out)@) + cases_stores(
            cases@,
            receiver@,
            body@,
        ),
    decreases cases@,
{
    let ghost start = diagnostic_views(out@);
    let mut i: usize = 0;
    assert(cases@.take(0) =~= Seq::<MatchCase>::empty());
    assert(diagnostic_views(out@) =~= start + cases_stores(cases@.take(0), receiver@, body@));
    while i < cases.len()
        invariant
            0 <= i <= cases@.len(),
            diagnostic_views(out@) == start + cases_stores(cases@.take(i as int), receiver@, body@),
        decreases cases@.len() - i,
    {
        assert(cases@.take(i + 1).drop_last() =~= cases@.take(i as int));
        assert(cases@.take(i + 1).last() == cases@[i as int]);
        proof {
            assert(decreases_to!(cases@ => cases@[i as int]));
        }
        optional_stores_exec(&cases[i].guard, receiver, body, out);
        stmts_stores_exec(&cases[i].body, receiver, body, out);
        i = i + 1;
    }
    assert(cases@.take(cases@.len() as int) =~= cases@);
}

fn handlers_stores_exec(
    hs: &Vec<ExceptHandler>,
    receiver: &Vec<char>,
    body: &Vec<Stmt>,
    out: &mut Vec<Diagnostic>,
)
    ensures
        diagnostic_views(final(out)@) == diagnostic_views(old(out)@) + handlers_stores(
            hs@,
            receiver@,
            body@,
        ),
    decreases hs@,
{
    let ghost start = diagnostic_views(out@);
    let mut i: usize = 0;
    assert(hs@.take(0) =~= Seq::<ExceptHandler>::empty());
    assert(diagnostic_views(out@) =~= start + handlers_stores(hs@.take(0), receiver@, body@));
    while i < hs.len()
        invariant
            0 <= i <= hs@.len(),
            diagnostic_views(out@) == start + handlers_stores(hs@.take(i as int), receiver@, body@),
        decreases hs@.len() - i,
    {
        assert(hs@.take(i + 1).drop_last() =~= hs@.take(i as int));
        assert(hs@.take(i + 1).last() == hs@[i as int]);
        proof {
            assert(decreases_to!(hs@ => hs@[i as int]));
        }
        boxed_stores_exec(&hs[i].type_, receiver, body, out);
        stmts_stores_exec(&hs[i].body, receiver, body, out);
        i = i + 1;
    }
    assert(hs@.take(hs@.len() as int) =~= hs@);
}

fn is_excluded_method_exec(f: &FunctionDef) -> (r: bool)
    ensures
        r == is_excluded_method(*f),
{
    let name = to_chars(f.name.id.as_str());
    if chars_eq(&name, &to_chars("__new__")) || chars_eq(&name, &to_chars("__init_subclass__"))
        || chars_eq(&name, &to_chars("__class_getitem__")) {
        return true;
    }
    let mut j: usize = 0;
    while j < f.decorators.len()
        invariant
            0 <= j <= f.decorators@.len(),
            !is_class_hook(f.name.id@),
            forall|m: int|
                0 <= m < j ==> !(matches_builtin(#[trigger] f.decorators@[m], "staticmethod"@)
                    || matches_builtin(f.decorators@[m], "classmethod"@)),
        decreases f.decorators@.len() - j,
    {
        let d = &f.decorators[j];
        if matches_builtin_exec(d, "staticmethod") || matches_builtin_exec(d, "classmethod") {
            return true;
        }
        j = j + 1;
    }
    false
}

fn method_stores_exec(s: &Stmt, body: &Vec<Stmt>, out: &mut Vec<Diagnostic>)
    ensures
        diagnostic_views(final(out)@) == diagnostic_views(old(out)@) + method_stores(*s, body@),
{
    let ghost start = diagnostic_views(out@);
    match s {
        Stmt::FunctionDef(f) => {
            if !is_excluded_method_exec(f) {
                let first = if f.parameters.posonlyargs.len() > 0 {
                    Some(&f.parameters.posonlyargs[0])
                } else if f.parameters.args.len() > 0 {
                    Some(&f.parameters.args[0])
                } else {
                    None
                };
                match first {
                    Some(p) => {
                        let receiver = to_chars(p.name.id.as_str());
                        stmts_stores_exec(&f.body, &receiver, body, out);
                    },
                    None => {},
                }
            }
        },
        _ => {},
    }
    assert(diagnostic_views(out@) =~= start + method_stores(*s, body@));
}

fn own_stores_exec(s: &Stmt, out: &mut Vec<Diagnostic>)
    ensures
        diagnostic_views(final(out)@) == diagnostic_views(old(out)@) + own_stores(*s),
{
    let ghost start = diagnostic_views(out@);
    match s {
        Stmt::ClassDef(c) => {
            let body = &c.body;
            let mut k: usize = 0;
            assert(diagnostic_views(out@) =~= start + class_body_stores(body@, 0));
            while k < body.len()
                invariant
                    0 <= k <= body@.len(),
                    diagnostic_views(out@) == start + class_body_stores(body@, k as int),
                decreases body@.len() - k,
            {
                method_stores_exec(&body[k], body, out);
                k = k + 1;
            }
        },
        _ => {
            assert(diagnostic_views(out@) =~= start + own_stores(*s));
        },
    }
}

fn check_stmt(s: &Stmt, out: &mut Vec<Diagnostic>)
    ensures
        diagnostic_views(final(out)@) == diagnostic_views(old(out)@) + instance_data_stmt(*s),
    decreases s,
{
    let ghost start = diagnostic_views(out@);
    own_stores_exec(s, out);
    let ghost middle = diagnostic_views(out@);
    let kids = children_exec(s);
    let mut j: usize = 0;
    while j < kids.len()
        invariant
            0 <= j <= kids@.len() == children(*s).len(),
            forall|m: int| 0 <= m < kids@.len() ==> *(#[trigger] kids@[m]) == children(*s)[m],
            diagnostic_views(out@) == middle + instance_data_children(*s, j as int),
        decreases kids@.len() - j,
    {
        proof {
            lemma_children_decrease(*s, j as int);
        }
        check_stmt(kids[j], out);
        j = j + 1;
    }
}

/// GR012 over a module; see [`explicit_instance_data`].
pub fn check_explicit_instance_data(module: &Vec<Stmt>) -> (diagnostics: Vec<Diagnostic>)
    ensures
        diagnostic_views(diagnostics@) == explicit_instance_data(module@),
{
    let mut diagnostics: Vec<Diagnostic> = Vec::new();
    let mut i: usize = 0;
    while i < module.len()
        invariant
            0 <= i <= module@.len(),
            diagnostic_views(diagnostics@) == instance_data_suite(module@.take(i as int)),
        decreases module@.len() - i,
    {
        check_stmt(&module[i], &mut diagnostics);
        assert(module@.take(i + 1).drop_last() =~= module@.take(i as int));
        i = i + 1;
    }
    assert(module@.take(module@.len() as int) =~= module@);
    diagnostics
}

// What every finding says.

/// The diagnostic names a public attribute in the rule's message and is suppressed on the
/// row of the attribute name.
pub open spec fn names_public_field(d: DiagnosticView) -> bool {
    &&& exists|name: Seq<char>|
        is_public_attribute(name) && d.message == #[trigger] instance_data_message(name)
    &&& d.noqa_offset == Some(d.range.start)
}

pub open spec fn all_name_public_fields(ds: Seq<DiagnosticView>) -> bool {
    forall|i: int| 0 <= i < ds.len() ==> names_public_field(#[trigger] ds[i])
}

proof fn lemma_concat(a: Seq<DiagnosticView>, b: Seq<DiagnosticView>)
    requires
        all_name_public_fields(a),
        all_name_public_fields(b),
    ensures
        all_name_public_fields(a + b),
{
    assert forall|i: int| 0 <= i < (a + b).len() implies names_public_field(#[trigger] (a + b)[i]) by {
        if i < a.len() {
            assert((a + b)[i] == a[i]);
        } else {
            assert((a + b)[i] == b[i - a.len()]);
        }
    }
}

proof fn lemma_expr(e: Expr, receiver: Seq<char>, body: Seq<Stmt>, ann: bool)
    ensures
        all_name_public_fields(expr_stores(e, receiver, body, ann)),
    decreases e,
{
    match e {
        Expr::Attribute { value, attr, ctx, .. } => {
            let found = attribute_store(*value, attr, ctx, receiver, body, ann);
            if found.len() > 0 {
                assert(is_public_attribute(attr.id@) && found[0].message == instance_data_message(
                    attr.id@,
                ));
            }
            lemma_expr(*value, receiver, body, ann);
            lemma_concat(found, expr_stores(*value, receiver, body, ann));
        },
        Expr::Subscript { value, slice, .. } => {
            lemma_expr(*value, receiver, body, ann);
            lemma_expr(*slice, receiver, body, ann);
            lemma_concat(expr_stores(*value, receiver, body, ann), expr_stores(*slice, receiver, body, ann));
        },
        Expr::Starred { value, .. } => lemma_expr(*value, receiver, body, ann),
        Expr::List { elts, .. } => lemma_exprs(elts@, receiver, body, ann),
        Expr::Tuple { elts, .. } => lemma_exprs(elts@, receiver, body, ann),
        Expr::Dict { items, .. } => lemma_exprs(items@, receiver, body, ann),
        Expr::Call { func, arguments, .. } => {
            lemma_expr(*func, receiver, body, ann);
            lemma_exprs(arguments@, receiver, body, ann);
            lemma_concat(expr_stores(*func, receiver, body, ann), exprs_stores(arguments@, receiver, body, ann));
        },
        Expr::Compare { left, comparators, .. } => {
            lemma_expr(*left, receiver, body, ann);
            lemma_exprs(comparators@, receiver, body, ann);
            lemma_concat(expr_stores(*left, receiver, body, ann), exprs_stores(comparators@, receiver, body, ann));
        },
        Expr::UnaryOp { operand, .. } => lemma_expr(*operand, receiver, body, ann),
        Expr::Named { target, value, .. } => {
            lemma_expr(*target, receiver, body, ann);
            lemma_expr(*value, receiver, body, ann);
            lemma_concat(expr_stores(*target, receiver, body, ann), expr_stores(*value, receiver, body, ann));
        },
        Expr::Comprehension { parts, .. } => lemma_exprs(parts@, receiver, body, ann),
        Expr::Other { children, .. } => lemma_exprs(children@, receiver, body, ann),
        _ => {},
    }
}

proof fn lemma_exprs(es: Seq<Expr>, receiver: Seq<char>, body: Seq<Stmt>, ann: bool)
    ensures
        all_name_public_fields(exprs_stores(es, receiver, body, ann)),
    decreases es,
{
    if es.len() > 0 {
        lemma_exprs(es.drop_last(), receiver, body, ann);
        lemma_expr(es.last(), receiver, body, ann);
        lemma_concat(exprs_stores(es.drop_last(), receiver, body, ann), expr_stores(es.last(), receiver, body, ann));
    }
}

proof fn lemma_optional(e: Option<Expr>, receiver: Seq<char>, body: Seq<Stmt>)
    ensures
        all_name_public_fields(optional_stores(e, receiver, body)),
{
    if let Some(x) = e {
        lemma_expr(x, receiver, body, false);
    }
}

proof fn lemma_type_params(tps: Seq<TypeParam>, receiver: Seq<char>, body: Seq<Stmt>)
    ensures
        all_name_public_fields(type_params_stores(tps, receiver, body)),
    decreases tps,
{
    if tps.len() > 0 {
        lemma_type_params(tps.drop_last(), receiver, body);
        lemma_exprs(tps.last().children@, receiver, body, false);
        lemma_concat(type_params_stores(tps.drop_last(), receiver, body), exprs_stores(tps.last().children@, receiver, body, false));
    }
}

proof fn lemma_stmt(s: Stmt, receiver: Seq<char>, body: Seq<Stmt>)
    ensures
        all_name_public_fields(stmt_stores(s, receiver, body)),
    decreases s,
{
    match s {
        Stmt::Return { value, .. } => lemma_optional(value, receiver, body),
        Stmt::Delete { targets, .. } => lemma_exprs(targets@, receiver, body, false),
        Stmt::Assign { targets, value, .. } => {
            lemma_exprs(targets@, receiver, body, false);
            lemma_expr(value, receiver, body, false);
            lemma_concat(exprs_stores(targets@, receiver, body, false), expr_stores(value, receiver, body, false));
        },
        Stmt::AugAssign { target, value, .. } => {
            lemma_expr(target, receiver, body, false);
            lemma_expr(value, receiver, body, false);
            lemma_concat(expr_stores(target, receiver, body, false), expr_stores(value, receiver, body, false));
        },
        Stmt::AnnAssign { target, annotation, value, .. } => match value {
            None => lemma_expr(target, receiver, body, true),
            Some(v) => {
                lemma_expr(target, receiver, body, false);
                lemma_expr(annotation, receiver, body, false);
                lemma_expr(v, receiver, body, false);
                let a = expr_stores(target, receiver, body, false);
                let b = expr_stores(annotation, receiver, body, false);
                lemma_concat(a, b);
                lemma_concat(a + b, expr_stores(v, receiver, body, false));
            },
        },
        Stmt::TypeAlias { name, type_params, value, .. } => {
            lemma_expr(name, receiver, body, false);
            lemma_type_params(type_params@, receiver, body);
            lemma_expr(value, receiver, body, false);
            let a = expr_stores(name, receiver, body, false);
            let b = type_params_stores(type_params@, receiver, body);
            lemma_concat(a, b);
            lemma_concat(a + b, expr_stores(value, receiver, body, false));
        },
        Stmt::For { target, iter, body: inner, orelse, .. } => {
            lemma_expr(target, receiver, body, false);
            lemma_expr(iter, receiver, body, false);
            lemma_stmts(inner@, receiver, body);
            lemma_stmts(orelse@, receiver, body);
            let a = expr_stores(target, receiver, body, false);
            let b = expr_stores(iter, receiver, body, false);
            let c = stmts_stores(inner@, receiver, body);
            lemma_concat(a, b);
            lemma_concat(a + b, c);
            lemma_concat(a + b + c, stmts_stores(orelse@, receiver, body));
        },
        Stmt::While { test, body: inner, orelse, .. } => {
            lemma_expr(test, receiver, body, false);
            lemma_stmts(inner@, receiver, body);
            lemma_stmts(orelse@, receiver, body);
            let a = expr_stores(test, receiver, body, false);
            let b = stmts_stores(inner@, receiver, body);
            lemma_concat(a, b);
            lemma_concat(a + b, stmts_stores(orelse@, receiver, body));
        },
        Stmt::If { test, body: inner, clauses, .. } => {
            lemma_expr(test, receiver, body, false);
            lemma_stmts(inner@, receiver, body);
            lemma_clauses(clauses@, receiver, body);
            let a = expr_stores(test, receiver, body, false);
            let b = stmts_stores(inner@, receiver, body);
            lemma_concat(a, b);
            lemma_concat(a + b, clauses_stores(clauses@, receiver, body));
        },
        Stmt::With { items, body: inner, .. } => {
            lemma_items(items@, receiver, body);
            lemma_stmts(inner@, receiver, body);
            lemma_concat(items_stores(items@, receiver, body), stmts_stores(inner@, receiver, body));
        },
        Stmt::Match { subject, cases, .. } => {
            lemma_expr(subject, receiver, body, false);
            lemma_cases(cases@, receiver, body);
            lemma_concat(expr_stores(subject, receiver, body, false), cases_stores(cases@, receiver, body));
        },
        Stmt::Raise { exc, cause, .. } => {
            lemma_optional(exc, receiver, body);
            lemma_optional(cause, receiver, body);
            lemma_concat(optional_stores(exc, receiver, body), optional_stores(cause, receiver, body));
        },
        Stmt::Try { body: inner, handlers, orelse, finalbody, .. } => {
            lemma_stmts(inner@, receiver, body);
            lemma_handlers(handlers@, receiver, body);
            lemma_stmts(orelse@, receiver, body);
            lemma_stmts(finalbody@, receiver, body);
            let a = stmts_stores(inner@, receiver, body);
            let b = handlers_stores(handlers@, receiver, body);
            let c = stmts_stores(orelse@, receiver, body);
            lemma_concat(a, b);
            lemma_concat(a + b, c);
            lemma_concat(a + b + c, stmts_stores(finalbody@, receiver, body));
        },
        Stmt::Assert { test, msg, .. } => {
            lemma_expr(test, receiver, body, false);
            lemma_optional(msg, receiver, body);
            lemma_concat(expr_stores(test, receiver, body, false), optional_stores(msg, receiver, body));
        },
        Stmt::Expr { value, .. } => lemma_expr(value, receiver, body, false),
        _ => {},
    }
}

proof fn lemma_stmts(ss: Seq<Stmt>, receiver: Seq<char>, body: Seq<Stmt>)
    ensures
        all_name_public_fields(stmts_stores(ss, receiver, body)),
    decreases ss,
{
    if ss.len() > 0 {
        lemma_stmts(ss.drop_last(), receiver, body);
        lemma_stmt(ss.last(), receiver, body);
        lemma_concat(stmts_stores(ss.drop_last(), receiver, body), stmt_stores(ss.last(), receiver, body));
    }
}

proof fn lemma_clauses(cs: Seq<ElifElseClause>, receiver: Seq<char>, body: Seq<Stmt>)
    ensures
        all_name_public_fields(clauses_stores(cs, receiver, body)),
    decreases cs,
{
    if cs.len() > 0 {
        lemma_clauses(cs.drop_last(), receiver, body);
        lemma_optional(cs.last().test, receiver, body);
        lemma_stmts(cs.last().body@, receiver, body);
        let a = clauses_stores(cs.drop_last(), receiver, body);
        let b = optional_stores(cs.last().test, receiver, body);
        lemma_concat(a, b);
        lemma_concat(a + b, stmts_stores(cs.last().body@, receiver, body));
    }
}

proof fn lemma_items(items: Seq<WithItem>, receiver: Seq<char>, body: Seq<Stmt>)
    ensures
        all_name_public_fields(items_stores(items, receiver, body)),
    decreases items,
{
    if items.len() > 0 {
        lemma_items(items.drop_last(), receiver, body);
        lemma_expr(items.last().context_expr, receiver, body, false);
        lemma_optional(items.last().optional_vars, receiver, body);
        let a = items_stores(items.drop_last(), receiver, body);
        let b = expr_stores(items.last().context_expr, receiver, body, false);
        lemma_concat(a, b);
        lemma_concat(a + b, optional_stores(items.last().optional_vars, receiver, body));
    }
}

proof fn lemma_cases(cases: Seq<MatchCase>, receiver: Seq<char>, body: Seq<Stmt>)
    ensures
        all_name_public_fields(cases_stores(cases, receiver, body)),
    decreases cases,
{
    if cases.len() > 0 {
        lemma_cases(cases.drop_last(), receiver, body);
        lemma_optional(cases.last().guard, receiver, body);
        lemma_stmts(cases.last().body@, receiver, body);
        let a = cases_stores(cases.drop_last(), receiver, body);
        let b = optional_stores(cases.last().guard, receiver, body);
        lemma_concat(a, b);
        lemma_concat(a + b, stmts_stores(cases.last().body@, receiver, body));
    }
}

proof fn lemma_handlers(hs: Seq<ExceptHandler>, receiver: Seq<char>, body: Seq<Stmt>)
    ensures
        all_name_public_fields(handlers_stores(hs, receiver, body)),
    decreases hs,
{
    if hs.len() > 0 {
        lemma_handlers(hs.drop_last(), receiver, body);
        if let Some(x) = hs.last().type_ {
            lemma_expr(*x, receiver, body, false);
        }
        lemma_stmts(hs.last().body@, receiver, body);
        let a = handlers_stores(hs.drop_last(), receiver, body);
        let b = boxed_stores(hs.last().type_, receiver, body);
        lemma_concat(a, b);
        lemma_concat(a + b, stmts_stores(hs.last().body@, receiver, body));
    }
}

proof fn lemma_class_body(body: Seq<Stmt>, k: int)
    ensures
        all_name_public_fields(class_body_stores(body, k)),
    decreases k,
{
    if 0 < k <= body.len() {
        lemma_class_body(body, k - 1);
        if let Stmt::FunctionDef(f) = body[k - 1] {
            if let Some(receiver) = receiver_of(f) {
                lemma_stmts(f.body@, receiver, body);
            }
        }
        lemma_concat(class_body_stores(body, k - 1), method_stores(body[k - 1], body));
    }
}

proof fn lemma_instance_data_stmt(s: Stmt)
    ensures
        all_name_public_fields(instance_data_stmt(s)),
    decreases s, 1int, 0int,
{
    if let Stmt::ClassDef(c) = s {
        lemma_class_body(c.body@, c.body@.len() as int);
    }
    lemma_instance_data_children(s, children(s).len() as int);
    lemma_concat(own_stores(s), instance_data_children(s, children(s).len() as int));
}

proof fn lemma_instance_data_children(s: Stmt, j: int)
    ensures
        all_name_public_fields(instance_data_children(s, j)),
    decreases s, 0int, j,
{
    if 0 < j <= children(s).len() {
        lemma_children_decrease(s, j - 1);
        lemma_instance_data_children(s, j - 1);
        lemma_instance_data_stmt(children(s)[j - 1]);
        lemma_concat(instance_data_children(s, j - 1), instance_data_stmt(children(s)[j - 1]));
    }
}

/// Every finding names a public attribute, one whose name does not start with `_`, in the
/// rule's message, and is suppressed by a `# noqa` comment on the row of that name.
pub proof fn law_findings_name_public_fields(module: Seq<Stmt>)
    ensures
        all_name_public_fields(explicit_instance_data(module)),
    decreases module.len(),
{
    if module.len() > 0 {
        law_findings_name_public_fields(module.drop_last());
        lemma_instance_data_stmt(module.last());
        lemma_concat(instance_data_suite(module.drop_last()), instance_data_stmt(module.last()));
    }
}

} // verus!
