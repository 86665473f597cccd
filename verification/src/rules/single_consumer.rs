//! GR011 no-single-consumer-module-bindings: a non-public module binding whose every read
//! lies in one definition's body belongs in that definition. The module is walked as a
//! sequence of events: where names are bound, read, mutated in place and exported.
use vstd::prelude::*;
use crate::rules::bindings::first_component;
use crate::rules::bindings::first_component_exec;
use crate::rules::flow_states::copy_chars;
use crate::rules::flow_states::lemma_filter_take_step;
use crate::rules::definitions::is_non_public_name;
use crate::rules::definitions::is_non_public_name_exec;
use crate::rules::flow_states::named_views;
use crate::rules::flow_states::NamedRange;
use crate::rules::diagnostic_views;
use crate::rules::Diagnostic;
use crate::rules::DiagnosticView;
use crate::syntax::Alias;
use crate::syntax::ClassDef;
use crate::syntax::ElifElseClause;
use crate::syntax::ExceptHandler;
use crate::syntax::Expr;
use crate::syntax::ExprContext;
use crate::syntax::FunctionDef;
use crate::syntax::Identifier;
use crate::syntax::MatchCase;
use crate::syntax::Parameter;
use crate::syntax::Parameters;
use crate::syntax::Pattern;
use crate::syntax::Stmt;
use crate::syntax::TextRange;
use crate::syntax::TypeParam;
use crate::syntax::WithItem;
use crate::text::chars_eq;
use crate::text::push_chars;
use crate::text::push_str;
use crate::text::views;
use crate::text::to_chars;

verus! {

/// What the walk sees happen to a name.
pub enum Event {
    /// The name is bound: assigned, deleted, imported, declared, defined or a parameter.
    Bind { name: Seq<char> },
    /// The name is read, inside the consumer with that index or outside any consumer.
    Read { name: Seq<char>, consumer: Option<int> },
    /// The value bound to the name is stored into or deleted from in place.
    Mutate { name: Seq<char> },
    /// A string literal is evaluated.
    Str { value: Seq<char> },
    /// A call is evaluated.
    Call,
    /// The name is listed in `__all__`.
    Export { name: Seq<char> },
}

/// The name at the base of an attribute and subscript chain.
pub open spec fn mutation_events(base: Expr) -> Seq<Event>
    decreases base,
{
    match base {
        Expr::Subscript { value, .. } => mutation_events(*value),
        Expr::Attribute { value, .. } => mutation_events(*value),
        Expr::Name { id, .. } => seq![Event::Mutate { name: id@ }],
        _ => seq![],
    }
}

/// The events of an expression, within the consumer `c`.
pub open spec fn expr_events(e: Expr, c: Option<int>) -> Seq<Event>
    decreases e,
{
    match e {
        Expr::Name { id, ctx, .. } => match ctx {
            ExprContext::Load => seq![Event::Read { name: id@, consumer: c }],
            ExprContext::Store => seq![Event::Bind { name: id@ }],
            ExprContext::Del => seq![Event::Bind { name: id@ }],
            ExprContext::Invalid => seq![],
        },
        Expr::Attribute { value, ctx, .. } => (if ctx != ExprContext::Load {
            mutation_events(*value)
        } else {
            seq![]
        }) + expr_events(*value, c),
        Expr::Subscript { value, slice, ctx, .. } => (if ctx != ExprContext::Load {
            mutation_events(*value)
        } else {
            seq![]
        }) + expr_events(*value, c) + expr_events(*slice, c),
        Expr::Starred { value, .. } => expr_events(*value, c),
        Expr::List { elts, .. } => exprs_events(elts@, c),
        Expr::Tuple { elts, .. } => exprs_events(elts@, c),
        Expr::Dict { items, .. } => exprs_events(items@, c),
        Expr::Call { func, arguments, .. } => seq![Event::Call] + expr_events(*func, c)
            + exprs_events(arguments@, c),
        Expr::Compare { left, comparators, .. } => expr_events(*left, c) + exprs_events(
            comparators@,
            c,
        ),
        Expr::UnaryOp { operand, .. } => expr_events(*operand, c),
        Expr::Named { target, value, .. } => expr_events(*target, c) + expr_events(*value, c),
        Expr::Lambda { parameters, body, .. } => (match parameters {
            Some(p) => parameters_events(*p, c),
            None => seq![],
        }) + expr_events(*body, c),
        Expr::Comprehension { parts, .. } => exprs_events(parts@, c),
        Expr::StringLiteral { value, .. } => seq![Event::Str { value: value@ }],
        Expr::Other { children, .. } => exprs_events(children@, c),
        _ => seq![],
    }
}

pub open spec fn exprs_events(es: Seq<Expr>, c: Option<int>) -> Seq<Event>
    decreases es,
{
    if es.len() == 0 {
        seq![]
    } else {
        exprs_events(es.drop_last(), c) + expr_events(es.last(), c)
    }
}

pub open spec fn boxed_events(e: Option<Box<Expr>>, c: Option<int>) -> Seq<Event>
    decreases e,
{
    match e {
        Some(x) => expr_events(*x, c),
        None => seq![],
    }
}

pub open spec fn optional_events(e: Option<Expr>, c: Option<int>) -> Seq<Event>
    decreases e,
{
    match e {
        Some(x) => expr_events(x, c),
        None => seq![],
    }
}

/// A parameter binds its name and evaluates its annotation, and its default when it may
/// have one.
pub open spec fn parameter_events(p: Parameter, with_default: bool, c: Option<int>) -> Seq<Event>
    decreases p,
{
    seq![Event::Bind { name: p.name.id@ }] + boxed_events(p.annotation, c) + if with_default {
        boxed_events(p.default, c)
    } else {
        seq![]
    }
}

pub open spec fn parameter_list_events(ps: Seq<Parameter>, c: Option<int>) -> Seq<Event>
    decreases ps,
{
    if ps.len() == 0 {
        seq![]
    } else {
        parameter_list_events(ps.drop_last(), c) + parameter_events(ps.last(), true, c)
    }
}

pub open spec fn parameters_events(p: Parameters, c: Option<int>) -> Seq<Event>
    decreases p,
{
    parameter_list_events(p.posonlyargs@, c) + parameter_list_events(p.args@, c) + (match p.vararg {
        Some(v) => parameter_events(*v, false, c),
        None => seq![],
    }) + parameter_list_events(p.kwonlyargs@, c) + (match p.kwarg {
        Some(k) => parameter_events(*k, false, c),
        None => seq![],
    })
}

/// A type parameter binds its name and evaluates its bound and default.
pub open spec fn type_params_events(tps: Seq<TypeParam>, c: Option<int>) -> Seq<Event>
    decreases tps.len(),
{
    if tps.len() == 0 {
        seq![]
    } else {
        type_params_events(tps.drop_last(), c) + seq![Event::Bind { name: tps.last().name.id@ }]
            + exprs_events(tps.last().children@, c)
    }
}

/// A pattern binds its capture names and evaluates its values and classes; every
/// alternative of an or-pattern is walked.
pub open spec fn pattern_events(p: Pattern, c: Option<int>) -> Seq<Event>
    decreases p,
{
    match p {
        Pattern::MatchValue { value } => expr_events(*value, c),
        Pattern::MatchSingleton => seq![],
        Pattern::MatchSequence { patterns } => patterns_events(patterns@, c),
        Pattern::MatchMapping { keys, patterns, rest } => exprs_events(keys@, c) + patterns_events(
            patterns@,
            c,
        ) + name_events(rest),
        Pattern::MatchClass { cls, patterns, keyword_patterns } => expr_events(*cls, c)
            + patterns_events(patterns@, c) + patterns_events(keyword_patterns@, c),
        Pattern::MatchStar { name } => name_events(name),
        Pattern::MatchAs { pattern, name } => name_events(name) + match pattern {
            Some(inner) => pattern_events(*inner, c),
            None => seq![],
        },
        Pattern::MatchOr { patterns } => patterns_events(patterns@, c),
    }
}

pub open spec fn patterns_events(ps: Seq<Pattern>, c: Option<int>) -> Seq<Event>
    decreases ps,
{
    if ps.len() == 0 {
        seq![]
    } else {
        patterns_events(ps.drop_last(), c) + pattern_events(ps.last(), c)
    }
}

pub open spec fn name_events(name: Option<Identifier>) -> Seq<Event> {
    match name {
        Some(n) => seq![Event::Bind { name: n.id@ }],
        None => seq![],
    }
}

/// An import binds each alias's name, or its module's first component.
pub open spec fn alias_events(aliases: Seq<Alias>) -> Seq<Event>
    decreases aliases.len(),
{
    if aliases.len() == 0 {
        seq![]
    } else {
        let a = aliases.last();
        let bound = match a.asname {
            Some(n) => n.id@,
            None => a.name.id@,
        };
        alias_events(aliases.drop_last()) + seq![Event::Bind { name: first_component(bound) }]
    }
}

pub open spec fn identifier_binds(names: Seq<Identifier>) -> Seq<Event>
    decreases names.len(),
{
    if names.len() == 0 {
        seq![]
    } else {
        identifier_binds(names.drop_last()) + seq![Event::Bind { name: names.last().id@ }]
    }
}

pub open spec fn is_str_event() -> spec_fn(Event) -> bool {
    |e: Event| e is Str
}

pub open spec fn as_export() -> spec_fn(Event) -> Event {
    |e: Event|
        match e {
            Event::Str { value } => Event::Export { name: value },
            _ => e,
        }
}

/// The strings of a value assigned to `__all__`, as exports.
pub open spec fn exports_of(value_events: Seq<Event>) -> Seq<Event> {
    value_events.filter(is_str_event()).map_values(as_export())
}

pub open spec fn is_dunder_all_target(target: Expr) -> bool {
    target matches Expr::Name { id, .. } && id@ == "__all__"@
}

/// The names an assignment to `__all__` lists.
pub open spec fn export_events(s: Stmt) -> Seq<Event> {
    match s {
        Stmt::Assign { targets, value, .. } => if targets@.len() > 0 && is_dunder_all_target(
            targets@[0],
        ) {
            exports_of(expr_events(value, None))
        } else {
            seq![]
        },
        Stmt::AnnAssign { target, value, .. } => match value {
            Some(v) => if is_dunder_all_target(target) {
                exports_of(expr_events(v, None))
            } else {
                seq![]
            },
            None => seq![],
        },
        Stmt::AugAssign { target, value, .. } => if is_dunder_all_target(target) {
            exports_of(expr_events(value, None))
        } else {
            seq![]
        },
        _ => seq![],
    }
}

/// The events of a statement and everything nested in it, within the consumer `c`.
pub open spec fn stmt_events(s: Stmt, c: Option<int>) -> Seq<Event>
    decreases s,
{
    export_events(s) + match s {
        Stmt::FunctionDef(f) => seq![Event::Bind { name: f.name.id@ }] + exprs_events(
            f.decorators@,
            c,
        ) + type_params_events(f.type_params@, c) + parameters_events(f.parameters, c)
            + boxed_events(f.returns, c) + stmts_events(f.body@, c),
        Stmt::ClassDef(cd) => seq![Event::Bind { name: cd.name.id@ }] + exprs_events(
            cd.decorators@,
            c,
        ) + type_params_events(cd.type_params@, c) + (match cd.arguments {
            Some(a) => exprs_events(a.args@, c) + exprs_events(a.keywords@, c),
            None => seq![],
        }) + stmts_events(cd.body@, c),
        Stmt::Return { value, .. } => optional_events(value, c),
        Stmt::Delete { targets, .. } => exprs_events(targets@, c),
        Stmt::Assign { targets, value, .. } => expr_events(value, c) + exprs_events(targets@, c),
        Stmt::AugAssign { target, value, .. } => expr_events(value, c) + expr_events(target, c),
        Stmt::AnnAssign { target, annotation, value, .. } => optional_events(value, c)
            + expr_events(annotation, c) + expr_events(target, c),
        Stmt::TypeAlias { name, type_params, value, .. } => expr_events(name, c)
            + type_params_events(type_params@, c) + expr_events(value, c),
        Stmt::For { target, iter, body, orelse, .. } => expr_events(iter, c) + expr_events(
            target,
            c,
        ) + stmts_events(body@, c) + stmts_events(orelse@, c),
        Stmt::While { test, body, orelse, .. } => expr_events(test, c) + stmts_events(body@, c)
            + stmts_events(orelse@, c),
        Stmt::If { test, body, clauses, .. } => expr_events(test, c) + stmts_events(body@, c)
            + clauses_events(clauses@, c),
        Stmt::With { items, body, .. } => items_events(items@, c) + stmts_events(body@, c),
        Stmt::Match { subject, cases, .. } => expr_events(subject, c) + cases_events(cases@, c),
        Stmt::Raise { exc, cause, .. } => optional_events(exc, c) + optional_events(cause, c),
        Stmt::Try { body, handlers, orelse, finalbody, .. } => stmts_events(body@, c)
            + handlers_events(handlers@, c) + stmts_events(orelse@, c) + stmts_events(
            finalbody@,
            c,
        ),
        Stmt::Assert { test, msg, .. } => expr_events(test, c) + optional_events(msg, c),
        Stmt::Import { names, .. } => alias_events(names@),
        Stmt::ImportFrom { names, .. } => alias_events(names@),
        Stmt::Global { names, .. } => identifier_binds(names@),
        Stmt::Nonlocal { names, .. } => identifier_binds(names@),
        Stmt::Expr { value, .. } => expr_events(value, c),
        _ => seq![],
    }
}

pub open spec fn stmts_events(ss: Seq<Stmt>, c: Option<int>) -> Seq<Event>
    decreases ss,
{
    if ss.len() == 0 {
        seq![]
    } else {
        stmts_events(ss.drop_last(), c) + stmt_events(ss.last(), c)
    }
}

pub open spec fn clauses_events(cs: Seq<ElifElseClause>, c: Option<int>) -> Seq<Event>
    decreases cs,
{
    if cs.len() == 0 {
        seq![]
    } else {
        clauses_events(cs.drop_last(), c) + optional_events(cs.last().test, c) + stmts_events(
            cs.last().body@,
            c,
        )
    }
}

pub open spec fn items_events(items: Seq<WithItem>, c: Option<int>) -> Seq<Event>
    decreases items,
{
    if items.len() == 0 {
        seq![]
    } else {
        items_events(items.drop_last(), c) + expr_events(items.last().context_expr, c)
            + optional_events(items.last().optional_vars, c)
    }
}

pub open spec fn cases_events(cases: Seq<MatchCase>, c: Option<int>) -> Seq<Event>
    decreases cases,
{
    if cases.len() == 0 {
        seq![]
    } else {
        cases_events(cases.drop_last(), c) + pattern_events(cases.last().pattern, c)
            + optional_events(cases.last().guard, c) + stmts_events(cases.last().body@, c)
    }
}

pub open spec fn handlers_events(handlers: Seq<ExceptHandler>, c: Option<int>) -> Seq<Event>
    decreases handlers,
{
    if handlers.len() == 0 {
        seq![]
    } else {
        let h = handlers.last();
        handlers_events(handlers.drop_last(), c) + name_events(h.name) + boxed_events(h.type_, c)
            + stmts_events(h.body@, c)
    }
}

/// A consumer binds its name; its decorators, type parameters, parameters and return
/// annotation evaluate outside it, and only its body reads inside it.
pub open spec fn consumer_events(f: FunctionDef, index: int) -> Seq<Event> {
    seq![Event::Bind { name: f.name.id@ }] + exprs_events(f.decorators@, None) + type_params_events(
        f.type_params@,
        None,
    ) + parameters_events(f.parameters, None) + boxed_events(f.returns, None) + stmts_events(
        f.body@,
        Some(index),
    )
}

pub open spec fn class_header_events(c: ClassDef) -> Seq<Event> {
    seq![Event::Bind { name: c.name.id@ }] + exprs_events(c.decorators@, None) + type_params_events(
        c.type_params@,
        None,
    ) + match c.arguments {
        Some(a) => exprs_events(a.args@, None) + exprs_events(a.keywords@, None),
        None => seq![],
    }
}

/// The walk of a class body: its methods are consumers named `Class.method`.
pub open spec fn class_walk(body: Seq<Stmt>, class_name: Seq<char>, events: Seq<Event>, consumers: Seq<
    Seq<char>,
>) -> (Seq<Event>, Seq<Seq<char>>)
    decreases body.len(),
{
    if body.len() == 0 {
        (events, consumers)
    } else {
        let (ev, cons) = class_walk(body.drop_last(), class_name, events, consumers);
        match body.last() {
            Stmt::FunctionDef(f) => (
                ev + consumer_events(f, cons.len() as int),
                cons.push(class_name + "."@ + f.name.id@),
            ),
            s => (ev + stmt_events(s, None), cons),
        }
    }
}

/// The walk of a module: its events, and the names of its consumers by index.
pub open spec fn module_walk(stmts: Seq<Stmt>) -> (Seq<Event>, Seq<Seq<char>>)
    decreases stmts.len(),
{
    if stmts.len() == 0 {
        (seq![], seq![])
    } else {
        let (ev, cons) = module_walk(stmts.drop_last());
        match stmts.last() {
            Stmt::FunctionDef(f) => (
                ev + consumer_events(f, cons.len() as int),
                cons.push(f.name.id@),
            ),
            Stmt::ClassDef(c) => class_walk(c.body@, c.name.id@, ev + class_header_events(c), cons),
            s => (ev + stmt_events(s, None), cons),
        }
    }
}

/// Who reads a name: nobody yet, one consumer only, or someone else.
pub enum Reader {
    Nobody,
    Consumer(int),
    Elsewhere,
}

/// The reader of `name` after the events, first to last.
pub open spec fn reader_of(events: Seq<Event>, name: Seq<char>) -> Reader
    decreases events.len(),
{
    if events.len() == 0 {
        Reader::Nobody
    } else {
        let r = reader_of(events.drop_last(), name);
        match events.last() {
            Event::Read { name: n, consumer } => if n == name {
                match (r, consumer) {
                    (Reader::Nobody, Some(k)) => Reader::Consumer(k),
                    (Reader::Consumer(p), Some(k)) => if p == k {
                        r
                    } else {
                        Reader::Elsewhere
                    },
                    _ => Reader::Elsewhere,
                }
            } else {
                r
            },
            Event::Mutate { name: n } => if n == name {
                Reader::Elsewhere
            } else {
                r
            },
            _ => r,
        }
    }
}

/// How many times `name` is bound.
pub open spec fn binding_sites(events: Seq<Event>, name: Seq<char>) -> nat
    decreases events.len(),
{
    if events.len() == 0 {
        0
    } else {
        binding_sites(events.drop_last(), name) + if events.last() == (Event::Bind { name }) {
            1nat
        } else {
            0nat
        }
    }
}

pub open spec fn is_exported(events: Seq<Event>, name: Seq<char>) -> bool {
    events.contains(Event::Export { name })
}

/// A read of a name through which the module namespace is reachable dynamically.
pub open spec fn is_dynamic_name(name: Seq<char>) -> bool {
    name == "eval"@ || name == "exec"@ || name == "globals"@ || name == "vars"@
}

pub open spec fn is_dynamic_read(e: Event) -> bool {
    e matches Event::Read { name, .. } && is_dynamic_name(name)
}

pub open spec fn has_dynamic_access(events: Seq<Event>) -> bool {
    exists|i: int| 0 <= i < events.len() && is_dynamic_read(#[trigger] events[i])
}

/// A value that calls anything may memoise work; an empty list or dict is an accumulator.
pub open spec fn is_candidate_value(value: Expr) -> bool {
    &&& !expr_events(value, None).contains(Event::Call)
    &&& !(value matches Expr::List { elts, .. } && elts@.len() == 0)
    &&& !(value matches Expr::Dict { items, .. } && items@.len() == 0)
}

pub open spec fn is_candidate_name(name: Seq<char>) -> bool {
    is_non_public_name(name) && !(name.len() >= 2 && name[0] == '_' && name[1] == '_')
}

/// The module-level binding a statement makes of a plain non-public name, if it is a
/// candidate: `_name = value` or `_name: T = value`.
pub open spec fn candidate_of(s: Stmt) -> Option<(Seq<char>, TextRange)> {
    let found: Option<(Seq<char>, TextRange, Expr)> = match s {
        Stmt::Assign { targets, value, .. } => if targets@.len() == 1 {
            match targets@[0] {
                Expr::Name { id, range, .. } => Some((id@, range, value)),
                _ => None,
            }
        } else {
            None
        },
        Stmt::AnnAssign { target, value, .. } => match (target, value) {
            (Expr::Name { id, range, .. }, Some(v)) => Some((id@, range, v)),
            _ => None,
        },
        _ => None,
    };
    match found {
        Some((name, range, value)) => if is_candidate_name(name) && is_candidate_value(value) {
            Some((name, range))
        } else {
            None
        },
        None => None,
    }
}

pub open spec fn candidates(module: Seq<Stmt>) -> Seq<(Seq<char>, TextRange)>
    decreases module.len(),
{
    if module.len() == 0 {
        seq![]
    } else {
        candidates(module.drop_last()) + match candidate_of(module.last()) {
            Some(c) => seq![c],
            None => seq![],
        }
    }
}

pub open spec fn single_consumer_message(name: Seq<char>, consumer: Seq<char>) -> Seq<char> {
    "Non-public module binding `"@ + name + "` is used only by `"@ + consumer
        + "`; move it into that definition"@
}

/// The findings for the candidates, in order.
pub open spec fn flagged(
    cands: Seq<(Seq<char>, TextRange)>,
    events: Seq<Event>,
    consumers: Seq<Seq<char>>,
) -> Seq<DiagnosticView>
    decreases cands.len(),
{
    if cands.len() == 0 {
        seq![]
    } else {
        let (name, range) = cands.last();
        flagged(cands.drop_last(), events, consumers) + match reader_of(events, name) {
            Reader::Consumer(k) => if !is_exported(events, name) && binding_sites(events, name)
                == 1 && 0 <= k < consumers.len() {
                seq![
                    DiagnosticView {
                        message: single_consumer_message(name, consumers[k]),
                        range,
                        noqa_offset: Some(range.start),
                    },
                ]
            } else {
                seq![]
            },
            _ => seq![],
        }
    }
}

/// GR011 over a module's statements.
pub open spec fn single_consumer_bindings(module: Seq<Stmt>) -> Seq<DiagnosticView> {
    let cands = candidates(module);
    if cands.len() == 0 {
        seq![]
    } else {
        let (events, consumers) = module_walk(module);
        if has_dynamic_access(events) {
            seq![]
        } else {
            flagged(cands, events, consumers)
        }
    }
}

// Executable counterparts.

pub open spec fn opt_int(c: Option<usize>) -> Option<int> {
    match c {
        Some(k) => Some(k as int),
        None => None,
    }
}

/// An event, as values.
pub enum EventOp {
    Bind { name: Vec<char> },
    Read { name: Vec<char>, consumer: Option<usize> },
    Mutate { name: Vec<char> },
    Str { value: Vec<char> },
    Call,
    Export { name: Vec<char> },
}

impl View for EventOp {
    type V = Event;

    open spec fn view(&self) -> Event {
        match self {
            EventOp::Bind { name } => Event::Bind { name: name@ },
            EventOp::Read { name, consumer } => Event::Read {
                name: name@,
                consumer: opt_int(*consumer),
            },
            EventOp::Mutate { name } => Event::Mutate { name: name@ },
            EventOp::Str { value } => Event::Str { value: value@ },
            EventOp::Call => Event::Call,
            EventOp::Export { name } => Event::Export { name: name@ },
        }
    }
}

pub open spec fn event_views(events: Seq<EventOp>) -> Seq<Event> {
    events.map_values(|e: EventOp| e@)
}

fn append_events(out: &mut Vec<EventOp>, more: Vec<EventOp>)
    ensures
        event_views(final(out)@) == event_views(old(out)@) + event_views(more@),
{
    let mut more = more;
    let ghost a = out@;
    let ghost b = more@;
    out.append(&mut more);
    assert(event_views(out@) =~= event_views(a) + event_views(b));
}

fn one_event(e: EventOp) -> (out: Vec<EventOp>)
    ensures
        event_views(out@) == seq![e@],
{
    let mut out: Vec<EventOp> = Vec::new();
    out.push(e);
    assert(event_views(out@) =~= seq![e@]);
    out
}

fn bind_event(name: &String) -> (out: Vec<EventOp>)
    ensures
        event_views(out@) == seq![Event::Bind { name: name@ }],
{
    one_event(EventOp::Bind { name: to_chars(name.as_str()) })
}

fn mutation_events_exec(base: &Expr) -> (out: Vec<EventOp>)
    ensures
        event_views(out@) == mutation_events(*base),
    decreases base,
{
    match base {
        Expr::Subscript { value, .. } => mutation_events_exec(value),
        Expr::Attribute { value, .. } => mutation_events_exec(value),
        Expr::Name { id, .. } => one_event(EventOp::Mutate { name: to_chars(id.as_str()) }),
        _ => Vec::new(),
    }
}

fn is_load(ctx: ExprContext) -> (r: bool)
    ensures
        r == (ctx == ExprContext::Load),
{
    match ctx {
        ExprContext::Load => true,
        _ => false,
    }
}

/// The events of an expression; see [`expr_events`].
pub fn expr_events_exec(e: &Expr, c: Option<usize>) -> (out: Vec<EventOp>)
    ensures
        event_views(out@) == expr_events(*e, opt_int(c)),
    decreases e,
{
    match e {
        Expr::Name { id, ctx, .. } => match ctx {
            ExprContext::Load => one_event(
                EventOp::Read { name: to_chars(id.as_str()), consumer: c },
            ),
            ExprContext::Store => bind_event(id),
            ExprContext::Del => bind_event(id),
            ExprContext::Invalid => Vec::new(),
        },
        Expr::Attribute { value, ctx, .. } => {
            let mut out = if !is_load(*ctx) {
                mutation_events_exec(value)
            } else {
                Vec::new()
            };
            append_events(&mut out, expr_events_exec(value, c));
            out
        },
        Expr::Subscript { value, slice, ctx, .. } => {
            let mut out = if !is_load(*ctx) {
                mutation_events_exec(value)
            } else {
                Vec::new()
            };
            append_events(&mut out, expr_events_exec(value, c));
            append_events(&mut out, expr_events_exec(slice, c));
            out
        },
        Expr::Starred { value, .. } => expr_events_exec(value, c),
        Expr::List { elts, .. } => exprs_events_exec(elts, c),
        Expr::Tuple { elts, .. } => exprs_events_exec(elts, c),
        Expr::Dict { items, .. } => exprs_events_exec(items, c),
        Expr::Call { func, arguments, .. } => {
            let mut out = one_event(EventOp::Call);
            append_events(&mut out, expr_events_exec(func, c));
            append_events(&mut out, exprs_events_exec(arguments, c));
            out
        },
        Expr::Compare { left, comparators, .. } => {
            let mut out = expr_events_exec(left, c);
            append_events(&mut out, exprs_events_exec(comparators, c));
            out
        },
        Expr::UnaryOp { operand, .. } => expr_events_exec(operand, c),
        Expr::Named { target, value, .. } => {
            let mut out = expr_events_exec(target, c);
            append_events(&mut out, expr_events_exec(value, c));
            out
        },
        Expr::Lambda { parameters, body, .. } => {
            let mut out = match parameters {
                Some(p) => parameters_events_exec(p, c),
                None => Vec::new(),
            };
            append_events(&mut out, expr_events_exec(body, c));
            out
        },
        Expr::Comprehension { parts, .. } => exprs_events_exec(parts, c),
        Expr::StringLiteral { value, .. } => one_event(
            EventOp::Str { value: to_chars(value.as_str()) },
        ),
        Expr::Other { children, .. } => exprs_events_exec(children, c),
        _ => Vec::new(),
    }
}

pub fn exprs_events_exec(es: &Vec<Expr>, c: Option<usize>) -> (out: Vec<EventOp>)
    ensures
        event_views(out@) == exprs_events(es@, opt_int(c)),
    decreases es@,
{
    let mut out: Vec<EventOp> = Vec::new();
    let mut i: usize = 0;
    assert(es@.take(0) =~= Seq::<Expr>::empty());
    while i < es.len()
        invariant
            0 <= i <= es@.len(),
            event_views(out@) == exprs_events(es@.take(i as int), opt_int(c)),
        decreases es@.len() - i,
    {
        assert(es@.take(i + 1).drop_last() =~= es@.take(i as int));
        assert(es@.take(i + 1).last() == es@[i as int]);
        proof {
            assert(decreases_to!(es@ => es@[i as int]));
        }
        append_events(&mut out, expr_events_exec(&es[i], c));
        i = i + 1;
    }
    assert(es@.take(es@.len() as int) =~= es@);
    out
}

fn boxed_events_exec(e: &Option<Box<Expr>>, c: Option<usize>) -> (out: Vec<EventOp>)
    ensures
        event_views(out@) == boxed_events(*e, opt_int(c)),
    decreases e,
{
    match e {
        Some(x) => expr_events_exec(x, c),
        None => Vec::new(),
    }
}

fn optional_events_exec(e: &Option<Expr>, c: Option<usize>) -> (out: Vec<EventOp>)
    ensures
        event_views(out@) == optional_events(*e, opt_int(c)),
    decreases e,
{
    match e {
        Some(x) => expr_events_exec(x, c),
        None => Vec::new(),
    }
}

fn parameter_events_exec(p: &Parameter, with_default: bool, c: Option<usize>) -> (out: Vec<EventOp>)
    ensures
        event_views(out@) == parameter_events(*p, with_default, opt_int(c)),
    decreases p,
{
    let mut out = bind_event(&p.name.id);
    append_events(&mut out, boxed_events_exec(&p.annotation, c));
    if with_default {
        append_events(&mut out, boxed_events_exec(&p.default, c));
    } else {
        assert(event_views(out@) =~= event_views(out@) + Seq::<Event>::empty());
    }
    out
}

fn parameter_list_events_exec(ps: &Vec<Parameter>, c: Option<usize>) -> (out: Vec<EventOp>)
    ensures
        event_views(out@) == parameter_list_events(ps@, opt_int(c)),
    decreases ps@,
{
    let mut out: Vec<EventOp> = Vec::new();
    let mut i: usize = 0;
    assert(ps@.take(0) =~= Seq::<Parameter>::empty());
    while i < ps.len()
        invariant
            0 <= i <= ps@.len(),
            event_views(out@) == parameter_list_events(ps@.take(i as int), opt_int(c)),
        decreases ps@.len() - i,
    {
        assert(ps@.take(i + 1).drop_last() =~= ps@.take(i as int));
        assert(ps@.take(i + 1).last() == ps@[i as int]);
        proof {
            assert(decreases_to!(ps@ => ps@[i as int]));
        }
        append_events(&mut out, parameter_events_exec(&ps[i], true, c));
        i = i + 1;
    }
    assert(ps@.take(ps@.len() as int) =~= ps@);
    out
}

fn parameters_events_exec(p: &Parameters, c: Option<usize>) -> (out: Vec<EventOp>)
    ensures
        event_views(out@) == parameters_events(*p, opt_int(c)),
    decreases p,
{
    let mut out = parameter_list_events_exec(&p.posonlyargs, c);
    append_events(&mut out, parameter_list_events_exec(&p.args, c));
    match &p.vararg {
        Some(v) => append_events(&mut out, parameter_events_exec(v, false, c)),
        None => {},
    }
    append_events(&mut out, parameter_list_events_exec(&p.kwonlyargs, c));
    match &p.kwarg {
        Some(k) => append_events(&mut out, parameter_events_exec(k, false, c)),
        None => {},
    }
    assert(event_views(out@) =~= parameters_events(*p, opt_int(c)));
    out
}

fn type_params_events_exec(tps: &Vec<TypeParam>, c: Option<usize>) -> (out: Vec<EventOp>)
    ensures
        event_views(out@) == type_params_events(tps@, opt_int(c)),
{
    let mut out: Vec<EventOp> = Vec::new();
    let mut i: usize = 0;
    assert(tps@.take(0) =~= Seq::<TypeParam>::empty());
    while i < tps.len()
        invariant
            0 <= i <= tps@.len(),
            event_views(out@) == type_params_events(tps@.take(i as int), opt_int(c)),
        decreases tps@.len() - i,
    {
        assert(tps@.take(i + 1).drop_last() =~= tps@.take(i as int));
        assert(tps@.take(i + 1).last() == tps@[i as int]);
        append_events(&mut out, bind_event(&tps[i].name.id));
        append_events(&mut out, exprs_events_exec(&tps[i].children, c));
        i = i + 1;
    }
    assert(tps@.take(tps@.len() as int) =~= tps@);
    out
}

fn name_events_exec(name: &Option<Identifier>) -> (out: Vec<EventOp>)
    ensures
        event_views(out@) == name_events(*name),
{
    match name {
        Some(n) => bind_event(&n.id),
        None => Vec::new(),
    }
}

fn pattern_events_exec(p: &Pattern, c: Option<usize>) -> (out: Vec<EventOp>)
    ensures
        event_views(out@) == pattern_events(*p, opt_int(c)),
    decreases p,
{
    match p {
        Pattern::MatchValue { value } => expr_events_exec(value, c),
        Pattern::MatchSingleton => Vec::new(),
        Pattern::MatchSequence { patterns } => patterns_events_exec(patterns, c),
        Pattern::MatchMapping { keys, patterns, rest } => {
            let mut out = exprs_events_exec(keys, c);
            append_events(&mut out, patterns_events_exec(patterns, c));
            append_events(&mut out, name_events_exec(rest));
            out
        },
        Pattern::MatchClass { cls, patterns, keyword_patterns } => {
            let mut out = expr_events_exec(cls, c);
            append_events(&mut out, patterns_events_exec(patterns, c));
            append_events(&mut out, patterns_events_exec(keyword_patterns, c));
            out
        },
        Pattern::MatchStar { name } => name_events_exec(name),
        Pattern::MatchAs { pattern, name } => {
            let mut out = name_events_exec(name);
            match pattern {
                Some(inner) => append_events(&mut out, pattern_events_exec(inner, c)),
                None => {
                    assert(event_views(out@) =~= event_views(out@) + Seq::<Event>::empty());
                },
            }
            out
        },
        Pattern::MatchOr { patterns } => patterns_events_exec(patterns, c),
    }
}

fn patterns_events_exec(ps: &Vec<Pattern>, c: Option<usize>) -> (out: Vec<EventOp>)
    ensures
        event_views(out@) == patterns_events(ps@, opt_int(c)),
    decreases ps@,
{
    let mut out: Vec<EventOp> = Vec::new();
    let mut i: usize = 0;
    assert(ps@.take(0) =~= Seq::<Pattern>::empty());
    while i < ps.len()
        invariant
            0 <= i <= ps@.len(),
            event_views(out@) == patterns_events(ps@.take(i as int), opt_int(c)),
        decreases ps@.len() - i,
    {
        assert(ps@.take(i + 1).drop_last() =~= ps@.take(i as int));
        assert(ps@.take(i + 1).last() == ps@[i as int]);
        proof {
            assert(decreases_to!(ps@ => ps@[i as int]));
        }
        append_events(&mut out, pattern_events_exec(&ps[i], c));
        i = i + 1;
    }
    assert(ps@.take(ps@.len() as int) =~= ps@);
    out
}

fn alias_events_exec(aliases: &Vec<Alias>) -> (out: Vec<EventOp>)
    ensures
        event_views(out@) == alias_events(aliases@),
{
    let mut out: Vec<EventOp> = Vec::new();
    let mut i: usize = 0;
    assert(aliases@.take(0) =~= Seq::<Alias>::empty());
    while i < aliases.len()
        invariant
            0 <= i <= aliases@.len(),
            event_views(out@) == alias_events(aliases@.take(i as int)),
        decreases aliases@.len() - i,
    {
        assert(aliases@.take(i + 1).drop_last() =~= aliases@.take(i as int));
        assert(aliases@.take(i + 1).last() == aliases@[i as int]);
        let a = &aliases[i];
        let bound = match &a.asname {
            Some(n) => to_chars(n.id.as_str()),
            None => to_chars(a.name.id.as_str()),
        };
        append_events(&mut out, one_event(EventOp::Bind { name: first_component_exec(&bound) }));
        i = i + 1;
    }
    assert(aliases@.take(aliases@.len() as int) =~= aliases@);
    out
}

fn identifier_binds_exec(names: &Vec<Identifier>) -> (out: Vec<EventOp>)
    ensures
        event_views(out@) == identifier_binds(names@),
{
    let mut out: Vec<EventOp> = Vec::new();
    let mut i: usize = 0;
    assert(names@.take(0) =~= Seq::<Identifier>::empty());
    while i < names.len()
        invariant
            0 <= i <= names@.len(),
            event_views(out@) == identifier_binds(names@.take(i as int)),
        decreases names@.len() - i,
    {
        assert(names@.take(i + 1).drop_last() =~= names@.take(i as int));
        assert(names@.take(i + 1).last() == names@[i as int]);
        append_events(&mut out, bind_event(&names[i].id));
        i = i + 1;
    }
    assert(names@.take(names@.len() as int) =~= names@);
    out
}

fn exports_of_exec(value_events: &Vec<EventOp>) -> (out: Vec<EventOp>)
    ensures
        event_views(out@) == exports_of(event_views(value_events@)),
{
    let ghost all = event_views(value_events@);
    let mut out: Vec<EventOp> = Vec::new();
    let mut i: usize = 0;
    assert(all.take(0).filter(is_str_event()) =~= Seq::<Event>::empty()) by {
        reveal(Seq::filter);
    }
    while i < value_events.len()
        invariant
            0 <= i <= value_events@.len(),
            all == event_views(value_events@),
            event_views(out@) == all.take(i as int).filter(is_str_event()).map_values(as_export()),
        decreases value_events@.len() - i,
    {
        proof {
            lemma_filter_take_step(all, is_str_event(), i as int);
        }
        assert(all[i as int] == value_events@[i as int]@);
        let ghost before = event_views(out@);
        match &value_events[i] {
            EventOp::Str { value } => {
                out.push(EventOp::Export { name: copy_chars(value) });
                let ghost f = all.take(i as int).filter(is_str_event());
                assert(all.take(i + 1).filter(is_str_event()) == f.push(all[i as int]));
                assert(as_export()(all[i as int]) == (Event::Export { name: value@ }));
                assert(f.push(all[i as int]).map_values(as_export()) =~= f.map_values(as_export()).push(
                    as_export()(all[i as int]),
                ));
                assert(event_views(out@) =~= before.push(Event::Export { name: value@ }));
                assert(event_views(out@) =~= all.take(i + 1).filter(is_str_event()).map_values(
                    as_export(),
                ));
            },
            _ => {
                assert(event_views(out@) =~= all.take(i + 1).filter(is_str_event()).map_values(
                    as_export(),
                ));
            },
        }
        i = i + 1;
    }
    assert(all.take(value_events@.len() as int) =~= all);
    out
}

fn is_dunder_all_target_exec(target: &Expr) -> (r: bool)
    ensures
        r == is_dunder_all_target(*target),
{
    match target {
        Expr::Name { id, .. } => chars_eq(&to_chars(id.as_str()), &to_chars("__all__")),
        _ => false,
    }
}

fn export_events_exec(s: &Stmt) -> (out: Vec<EventOp>)
    ensures
        event_views(out@) == export_events(*s),
{
    match s {
        Stmt::Assign { targets, value, .. } => if targets.len() > 0 && is_dunder_all_target_exec(
            &targets[0],
        ) {
            exports_of_exec(&expr_events_exec(value, None))
        } else {
            Vec::new()
        },
        Stmt::AnnAssign { target, value, .. } => match value {
            Some(v) => if is_dunder_all_target_exec(target) {
                exports_of_exec(&expr_events_exec(v, None))
            } else {
                Vec::new()
            },
            None => Vec::new(),
        },
        Stmt::AugAssign { target, value, .. } => if is_dunder_all_target_exec(target) {
            exports_of_exec(&expr_events_exec(value, None))
        } else {
            Vec::new()
        },
        _ => Vec::new(),
    }
}

/// The events of a statement; see [`stmt_events`].
pub fn stmt_events_exec(s: &Stmt, c: Option<usize>) -> (out: Vec<EventOp>)
    ensures
        event_views(out@) == stmt_events(*s, opt_int(c)),
    decreases s,
{
    let mut out = export_events_exec(s);
    let rest = match s {
        Stmt::FunctionDef(f) => {
            let mut r = bind_event(&f.name.id);
            append_events(&mut r, exprs_events_exec(&f.decorators, c));
            append_events(&mut r, type_params_events_exec(&f.type_params, c));
            append_events(&mut r, parameters_events_exec(&f.parameters, c));
            append_events(&mut r, boxed_events_exec(&f.returns, c));
            append_events(&mut r, stmts_events_exec(&f.body, c));
            r
        },
        Stmt::ClassDef(cd) => {
            let mut r = bind_event(&cd.name.id);
            append_events(&mut r, exprs_events_exec(&cd.decorators, c));
            append_events(&mut r, type_params_events_exec(&cd.type_params, c));
            match &cd.arguments {
                Some(a) => {
                    append_events(&mut r, exprs_events_exec(&a.args, c));
                    append_events(&mut r, exprs_events_exec(&a.keywords, c));
                },
                None => {},
            }
            append_events(&mut r, stmts_events_exec(&cd.body, c));
            assert(event_views(r@) =~= stmt_events(*s, opt_int(c)).skip(
                export_events(*s).len() as int,
            ));
            r
        },
        Stmt::Return { value, .. } => optional_events_exec(value, c),
        Stmt::Delete { targets, .. } => exprs_events_exec(targets, c),
        Stmt::Assign { targets, value, .. } => {
            let mut r = expr_events_exec(value, c);
            append_events(&mut r, exprs_events_exec(targets, c));
            r
        },
        Stmt::AugAssign { target, value, .. } => {
            let mut r = expr_events_exec(value, c);
            append_events(&mut r, expr_events_exec(target, c));
            r
        },
        Stmt::AnnAssign { target, annotation, value, .. } => {
            let mut r = optional_events_exec(value, c);
            append_events(&mut r, expr_events_exec(annotation, c));
            append_events(&mut r, expr_events_exec(target, c));
            r
        },
        Stmt::TypeAlias { name, type_params, value, .. } => {
            let mut r = expr_events_exec(name, c);
            append_events(&mut r, type_params_events_exec(type_params, c));
            append_events(&mut r, expr_events_exec(value, c));
            r
        },
        Stmt::For { target, iter, body, orelse, .. } => {
            let mut r = expr_events_exec(iter, c);
            append_events(&mut r, expr_events_exec(target, c));
            append_events(&mut r, stmts_events_exec(body, c));
            append_events(&mut r, stmts_events_exec(orelse, c));
            r
        },
        Stmt::While { test, body, orelse, .. } => {
            let mut r = expr_events_exec(test, c);
            append_events(&mut r, stmts_events_exec(body, c));
            append_events(&mut r, stmts_events_exec(orelse, c));
            r
        },
        Stmt::If { test, body, clauses, .. } => {
            let mut r = expr_events_exec(test, c);
            append_events(&mut r, stmts_events_exec(body, c));
            append_events(&mut r, clauses_events_exec(clauses, c));
            r
        },
        Stmt::With { items, body, .. } => {
            let mut r = items_events_exec(items, c);
            append_events(&mut r, stmts_events_exec(body, c));
            r
        },
        Stmt::Match { subject, cases, .. } => {
            let mut r = expr_events_exec(subject, c);
            append_events(&mut r, cases_events_exec(cases, c));
            r
        },
        Stmt::Raise { exc, cause, .. } => {
            let mut r = optional_events_exec(exc, c);
            append_events(&mut r, optional_events_exec(cause, c));
            r
        },
        Stmt::Try { body, handlers, orelse, finalbody, .. } => {
            let mut r = stmts_events_exec(body, c);
            append_events(&mut r, handlers_events_exec(handlers, c));
            append_events(&mut r, stmts_events_exec(orelse, c));
            append_events(&mut r, stmts_events_exec(finalbody, c));
            r
        },
        Stmt::Assert { test, msg, .. } => {
            let mut r = expr_events_exec(test, c);
            append_events(&mut r, optional_events_exec(msg, c));
            r
        },
        Stmt::Import { names, .. } => alias_events_exec(names),
        Stmt::ImportFrom { names, .. } => alias_events_exec(names),
        Stmt::Global { names, .. } => identifier_binds_exec(names),
        Stmt::Nonlocal { names, .. } => identifier_binds_exec(names),
        Stmt::Expr { value, .. } => expr_events_exec(value, c),
        _ => Vec::new(),
    };
    append_events(&mut out, rest);
    out
}

pub fn stmts_events_exec(ss: &Vec<Stmt>, c: Option<usize>) -> (out: Vec<EventOp>)
    ensures
        event_views(out@) == stmts_events(ss@, opt_int(c)),
    decreases ss@,
{
    let mut out: Vec<EventOp> = Vec::new();
    let mut i: usize = 0;
    assert(ss@.take(0) =~= Seq::<Stmt>::empty());
    while i < ss.len()
        invariant
            0 <= i <= ss@.len(),
            event_views(out@) == stmts_events(ss@.take(i as int), opt_int(c)),
        decreases ss@.len() - i,
    {
        assert(ss@.take(i + 1).drop_last() =~= ss@.take(i as int));
        assert(ss@.take(i + 1).last() == ss@[i as int]);
        proof {
            assert(decreases_to!(ss@ => ss@[i as int]));
        }
        append_events(&mut out, stmt_events_exec(&ss[i], c));
        i = i + 1;
    }
    assert(ss@.take(ss@.len() as int) =~= ss@);
    out
}

fn clauses_events_exec(cs: &Vec<ElifElseClause>, c: Option<usize>) -> (out: Vec<EventOp>)
    ensures
        event_views(out@) == clauses_events(cs@, opt_int(c)),
    decreases cs@,
{
    let mut out: Vec<EventOp> = Vec::new();
    let mut i: usize = 0;
    assert(cs@.take(0) =~= Seq::<ElifElseClause>::empty());
    while i < cs.len()
        invariant
            0 <= i <= cs@.len(),
            event_views(out@) == clauses_events(cs@.take(i as int), opt_int(c)),
        decreases cs@.len() - i,
    {
        assert(cs@.take(i + 1).drop_last() =~= cs@.take(i as int));
        assert(cs@.take(i + 1).last() == cs@[i as int]);
        proof {
            assert(decreases_to!(cs@ => cs@[i as int]));
        }
        append_events(&mut out, optional_events_exec(&cs[i].test, c));
        append_events(&mut out, stmts_events_exec(&cs[i].body, c));
        i = i + 1;
    }
    assert(cs@.take(cs@.len() as int) =~= cs@);
    out
}

fn items_events_exec(items: &Vec<WithItem>, c: Option<usize>) -> (out: Vec<EventOp>)
    ensures
        event_views(out@) == items_events(items@, opt_int(c)),
    decreases items@,
{
    let mut out: Vec<EventOp> = Vec::new();
    let mut i: usize = 0;
    assert(items@.take(0) =~= Seq::<WithItem>::empty());
    while i < items.len()
        invariant
            0 <= i <= items@.len(),
            event_views(out@) == items_events(items@.take(i as int), opt_int(c)),
        decreases items@.len() - i,
    {
        assert(items@.take(i + 1).drop_last() =~= items@.take(i as int));
        assert(items@.take(i + 1).last() == items@[i as int]);
        proof {
            assert(decreases_to!(items@ => items@[i as int]));
        }
        append_events(&mut out, expr_events_exec(&items[i].context_expr, c));
        append_events(&mut out, optional_events_exec(&items[i].optional_vars, c));
        i = i + 1;
    }
    assert(items@.take(items@.len() as int) =~= items@);
    out
}

fn cases_events_exec(cases: &Vec<MatchCase>, c: Option<usize>) -> (out: Vec<EventOp>)
    ensures
        event_views(out@) == cases_events(cases@, opt_int(c)),
    decreases cases@,
{
    let mut out: Vec<EventOp> = Vec::new();
    let mut i: usize = 0;
    assert(cases@.take(0) =~= Seq::<MatchCase>::empty());
    while i < cases.len()
        invariant
            0 <= i <= cases@.len(),
            event_views(out@) == cases_events(cases@.take(i as int), opt_int(c)),
        decreases cases@.len() - i,
    {
        assert(cases@.take(i + 1).drop_last() =~= cases@.take(i as int));
        assert(cases@.take(i + 1).last() == cases@[i as int]);
        proof {
            assert(decreases_to!(cases@ => cases@[i as int]));
        }
        append_events(&mut out, pattern_events_exec(&cases[i].pattern, c));
        append_events(&mut out, optional_events_exec(&cases[i].guard, c));
        append_events(&mut out, stmts_events_exec(&cases[i].body, c));
        i = i + 1;
    }
    assert(cases@.take(cases@.len() as int) =~= cases@);
    out
}

fn handlers_events_exec(handlers: &Vec<ExceptHandler>, c: Option<usize>) -> (out: Vec<EventOp>)
    ensures
        event_views(out@) == handlers_events(handlers@, opt_int(c)),
    decreases handlers@,
{
    let mut out: Vec<EventOp> = Vec::new();
    let mut i: usize = 0;
    assert(handlers@.take(0) =~= Seq::<ExceptHandler>::empty());
    while i < handlers.len()
        invariant
            0 <= i <= handlers@.len(),
            event_views(out@) == handlers_events(handlers@.take(i as int), opt_int(c)),
        decreases handlers@.len() - i,
    {
        assert(handlers@.take(i + 1).drop_last() =~= handlers@.take(i as int));
        assert(handlers@.take(i + 1).last() == handlers@[i as int]);
        proof {
            assert(decreases_to!(handlers@ => handlers@[i as int]));
        }
        append_events(&mut out, name_events_exec(&handlers[i].name));
        append_events(&mut out, boxed_events_exec(&handlers[i].type_, c));
        append_events(&mut out, stmts_events_exec(&handlers[i].body, c));
        i = i + 1;
    }
    assert(handlers@.take(handlers@.len() as int) =~= handlers@);
    out
}

fn consumer_events_exec(f: &FunctionDef, index: usize) -> (out: Vec<EventOp>)
    ensures
        event_views(out@) == consumer_events(*f, index as int),
{
    let mut out = bind_event(&f.name.id);
    append_events(&mut out, exprs_events_exec(&f.decorators, None));
    append_events(&mut out, type_params_events_exec(&f.type_params, None));
    append_events(&mut out, parameters_events_exec(&f.parameters, None));
    append_events(&mut out, boxed_events_exec(&f.returns, None));
    append_events(&mut out, stmts_events_exec(&f.body, Some(index)));
    out
}

fn class_header_events_exec(c: &ClassDef) -> (out: Vec<EventOp>)
    ensures
        event_views(out@) == class_header_events(*c),
{
    let mut out = bind_event(&c.name.id);
    append_events(&mut out, exprs_events_exec(&c.decorators, None));
    append_events(&mut out, type_params_events_exec(&c.type_params, None));
    match &c.arguments {
        Some(a) => {
            append_events(&mut out, exprs_events_exec(&a.args, None));
            append_events(&mut out, exprs_events_exec(&a.keywords, None));
        },
        None => {},
    }
    assert(event_views(out@) =~= class_header_events(*c));
    out
}

/// The walk of a module; see [`module_walk`].
pub fn module_walk_exec(stmts: &Vec<Stmt>) -> (r: (Vec<EventOp>, Vec<Vec<char>>))
    ensures
        (event_views(r.0@), views(r.1@)) == module_walk(stmts@),
{
    let mut events: Vec<EventOp> = Vec::new();
    let mut consumers: Vec<Vec<char>> = Vec::new();
    let mut i: usize = 0;
    assert(stmts@.take(0) =~= Seq::<Stmt>::empty());
    assert(event_views(events@) =~= Seq::<Event>::empty());
    assert(views(consumers@) =~= Seq::<Seq<char>>::empty());
    while i < stmts.len()
        invariant
            0 <= i <= stmts@.len(),
            (event_views(events@), views(consumers@)) == module_walk(stmts@.take(i as int)),
        decreases stmts@.len() - i,
    {
        assert(stmts@.take(i + 1).drop_last() =~= stmts@.take(i as int));
        assert(stmts@.take(i + 1).last() == stmts@[i as int]);
        match &stmts[i] {
            Stmt::FunctionDef(f) => {
                let index = consumers.len();
                append_events(&mut events, consumer_events_exec(f, index));
                let ghost c0 = views(consumers@);
                consumers.push(to_chars(f.name.id.as_str()));
                assert(views(consumers@) =~= c0.push(f.name.id@));
            },
            Stmt::ClassDef(c) => {
                append_events(&mut events, class_header_events_exec(c));
                let ghost ev0 = event_views(events@);
                let ghost cons0 = views(consumers@);
                let class_name = to_chars(c.name.id.as_str());
                let mut j: usize = 0;
                assert(c.body@.take(0) =~= Seq::<Stmt>::empty());
                while j < c.body.len()
                    invariant
                        0 <= j <= c.body@.len(),
                        class_name@ == c.name.id@,
                        (event_views(events@), views(consumers@)) == class_walk(
                            c.body@.take(j as int),
                            c.name.id@,
                            ev0,
                            cons0,
                        ),
                    decreases c.body@.len() - j,
                {
                    assert(c.body@.take(j + 1).drop_last() =~= c.body@.take(j as int));
                    assert(c.body@.take(j + 1).last() == c.body@[j as int]);
                    match &c.body[j] {
                        Stmt::FunctionDef(f) => {
                            let index = consumers.len();
                            append_events(&mut events, consumer_events_exec(f, index));
                            let mut display = copy_chars(&class_name);
                            push_str(&mut display, ".");
                            push_str(&mut display, f.name.id.as_str());
                            let ghost c0 = views(consumers@);
                            consumers.push(display);
                            assert(views(consumers@) =~= c0.push(c.name.id@ + "."@ + f.name.id@));
                        },
                        other => {
                            append_events(&mut events, stmt_events_exec(other, None));
                        },
                    }
                    j = j + 1;
                }
                assert(c.body@.take(c.body@.len() as int) =~= c.body@);
            },
            other => {
                append_events(&mut events, stmt_events_exec(other, None));
            },
        }
        i = i + 1;
    }
    assert(stmts@.take(stmts@.len() as int) =~= stmts@);
    (events, consumers)
}

/// Who reads a name, as values.
pub enum ReaderOp {
    Nobody,
    Consumer(usize),
    Elsewhere,
}

impl View for ReaderOp {
    type V = Reader;

    open spec fn view(&self) -> Reader {
        match self {
            ReaderOp::Nobody => Reader::Nobody,
            ReaderOp::Consumer(k) => Reader::Consumer(*k as int),
            ReaderOp::Elsewhere => Reader::Elsewhere,
        }
    }
}

fn reader_of_exec(events: &Vec<EventOp>, name: &Vec<char>) -> (r: ReaderOp)
    ensures
        r@ == reader_of(event_views(events@), name@),
{
    let ghost all = event_views(events@);
    let mut reader = ReaderOp::Nobody;
    let mut i: usize = 0;
    assert(all.take(0) =~= Seq::<Event>::empty());
    while i < events.len()
        invariant
            0 <= i <= events@.len(),
            all == event_views(events@),
            reader@ == reader_of(all.take(i as int), name@),
        decreases events@.len() - i,
    {
        assert(all.take(i + 1).drop_last() =~= all.take(i as int));
        assert(all.take(i + 1).last() == events@[i as int]@);
        match &events[i] {
            EventOp::Read { name: n, consumer } => {
                if chars_eq(n, name) {
                    reader = match (reader, *consumer) {
                        (ReaderOp::Nobody, Some(k)) => ReaderOp::Consumer(k),
                        (ReaderOp::Consumer(p), Some(k)) => if p == k {
                            ReaderOp::Consumer(p)
                        } else {
                            ReaderOp::Elsewhere
                        },
                        _ => ReaderOp::Elsewhere,
                    };
                }
            },
            EventOp::Mutate { name: n } => {
                if chars_eq(n, name) {
                    reader = ReaderOp::Elsewhere;
                }
            },
            _ => {},
        }
        i = i + 1;
    }
    assert(all.take(events@.len() as int) =~= all);
    reader
}

fn binding_sites_exec(events: &Vec<EventOp>, name: &Vec<char>) -> (count: usize)
    ensures
        count == binding_sites(event_views(events@), name@),
{
    let ghost all = event_views(events@);
    let mut count: usize = 0;
    let mut i: usize = 0;
    assert(all.take(0) =~= Seq::<Event>::empty());
    while i < events.len()
        invariant
            0 <= i <= events@.len(),
            all == event_views(events@),
            count == binding_sites(all.take(i as int), name@),
            count <= i,
        decreases events@.len() - i,
    {
        assert(all.take(i + 1).drop_last() =~= all.take(i as int));
        assert(all.take(i + 1).last() == events@[i as int]@);
        match &events[i] {
            EventOp::Bind { name: n } => {
                if chars_eq(n, name) {
                    count = count + 1;
                }
            },
            _ => {},
        }
        i = i + 1;
    }
    assert(all.take(events@.len() as int) =~= all);
    count
}

fn is_exported_exec(events: &Vec<EventOp>, name: &Vec<char>) -> (r: bool)
    ensures
        r == is_exported(event_views(events@), name@),
{
    let ghost all = event_views(events@);
    let mut i: usize = 0;
    while i < events.len()
        invariant
            0 <= i <= events@.len(),
            all == event_views(events@),
            forall|k: int| 0 <= k < i ==> all[k] != (Event::Export { name: name@ }),
        decreases events@.len() - i,
    {
        assert(all[i as int] == events@[i as int]@);
        match &events[i] {
            EventOp::Export { name: n } => {
                if chars_eq(n, name) {
                    return true;
                }
            },
            _ => {},
        }
        i = i + 1;
    }
    false
}

fn is_dynamic_name_exec(name: &Vec<char>) -> (r: bool)
    ensures
        r == is_dynamic_name(name@),
{
    chars_eq(name, &to_chars("eval")) || chars_eq(name, &to_chars("exec")) || chars_eq(
        name,
        &to_chars("globals"),
    ) || chars_eq(name, &to_chars("vars"))
}

fn has_dynamic_access_exec(events: &Vec<EventOp>) -> (r: bool)
    ensures
        r == has_dynamic_access(event_views(events@)),
{
    let ghost all = event_views(events@);
    let mut i: usize = 0;
    while i < events.len()
        invariant
            0 <= i <= events@.len(),
            all == event_views(events@),
            forall|k: int| 0 <= k < i ==> !is_dynamic_read(#[trigger] all[k]),
        decreases events@.len() - i,
    {
        assert(all[i as int] == events@[i as int]@);
        match &events[i] {
            EventOp::Read { name, .. } => {
                if is_dynamic_name_exec(name) {
                    assert(is_dynamic_read(all[i as int]));
                    return true;
                }
            },
            _ => {},
        }
        i = i + 1;
    }
    false
}

fn contains_call_event(events: &Vec<EventOp>) -> (r: bool)
    ensures
        r == event_views(events@).contains(Event::Call),
{
    let ghost all = event_views(events@);
    let mut i: usize = 0;
    while i < events.len()
        invariant
            0 <= i <= events@.len(),
            all == event_views(events@),
            forall|k: int| 0 <= k < i ==> all[k] != Event::Call,
        decreases events@.len() - i,
    {
        assert(all[i as int] == events@[i as int]@);
        match &events[i] {
            EventOp::Call => {
                return true;
            },
            _ => {},
        }
        i = i + 1;
    }
    false
}

fn is_candidate_value_exec(value: &Expr) -> (r: bool)
    ensures
        r == is_candidate_value(*value),
{
    if contains_call_event(&expr_events_exec(value, None)) {
        return false;
    }
    match value {
        Expr::List { elts, .. } => elts.len() != 0,
        Expr::Dict { items, .. } => items.len() != 0,
        _ => true,
    }
}

fn is_candidate_name_exec(name: &Vec<char>) -> (r: bool)
    ensures
        r == is_candidate_name(name@),
{
    is_non_public_name_exec(name) && !(name.len() >= 2 && name[0] == '_' && name[1] == '_')
}

fn candidate_of_exec(s: &Stmt) -> (r: Option<NamedRange>)
    ensures
        match r {
            Some(b) => candidate_of(*s) == Some(b@),
            None => candidate_of(*s) is None,
        },
{
    let found: Option<(Vec<char>, TextRange, &Expr)> = match s {
        Stmt::Assign { targets, value, .. } => if targets.len() == 1 {
            match &targets[0] {
                Expr::Name { id, range, .. } => Some((to_chars(id.as_str()), *range, value)),
                _ => None,
            }
        } else {
            None
        },
        Stmt::AnnAssign { target, value, .. } => match (target, value) {
            (Expr::Name { id, range, .. }, Some(v)) => Some((to_chars(id.as_str()), *range, v)),
            _ => None,
        },
        _ => None,
    };
    match found {
        Some((name, range, value)) => if is_candidate_name_exec(&name) && is_candidate_value_exec(
            value,
        ) {
            Some(NamedRange { name, range })
        } else {
            None
        },
        None => None,
    }
}

fn candidates_exec(module: &Vec<Stmt>) -> (out: Vec<NamedRange>)
    ensures
        named_views(out@) == candidates(module@),
{
    let mut out: Vec<NamedRange> = Vec::new();
    let mut i: usize = 0;
    assert(module@.take(0) =~= Seq::<Stmt>::empty());
    while i < module.len()
        invariant
            0 <= i <= module@.len(),
            named_views(out@) == candidates(module@.take(i as int)),
        decreases module@.len() - i,
    {
        assert(module@.take(i + 1).drop_last() =~= module@.take(i as int));
        assert(module@.take(i + 1).last() == module@[i as int]);
        let ghost before = named_views(out@);
        match candidate_of_exec(&module[i]) {
            Some(b) => {
                out.push(b);
                assert(named_views(out@) =~= before + seq![named_views(out@).last()]);
            },
            None => {
                assert(named_views(out@) =~= before + Seq::<(Seq<char>, TextRange)>::empty());
            },
        }
        i = i + 1;
    }
    assert(module@.take(module@.len() as int) =~= module@);
    out
}

fn flagged_exec(cands: &Vec<NamedRange>, events: &Vec<EventOp>, consumers: &Vec<Vec<char>>) -> (out:
    Vec<Diagnostic>)
    ensures
        diagnostic_views(out@) == flagged(named_views(cands@), event_views(events@), views(consumers@)),
{
    let ghost cs = named_views(cands@);
    let mut out: Vec<Diagnostic> = Vec::new();
    let mut i: usize = 0;
    assert(cs.take(0) =~= Seq::<(Seq<char>, TextRange)>::empty());
    while i < cands.len()
        invariant
            0 <= i <= cands@.len(),
            cs == named_views(cands@),
            diagnostic_views(out@) == flagged(cs.take(i as int), event_views(events@), views(consumers@)),
        decreases cands@.len() - i,
    {
        assert(cs.take(i + 1).drop_last() =~= cs.take(i as int));
        assert(cs.take(i + 1).last() == cands@[i as int]@);
        let cand = &cands[i];
        let ghost before = diagnostic_views(out@);
        match reader_of_exec(events, &cand.name) {
            ReaderOp::Consumer(k) => {
                if !is_exported_exec(events, &cand.name) && binding_sites_exec(events, &cand.name)
                    == 1 && k < consumers.len() {
                    let mut message: Vec<char> = Vec::new();
                    push_str(&mut message, "Non-public module binding `");
                    push_chars(&mut message, &cand.name);
                    push_str(&mut message, "` is used only by `");
                    push_chars(&mut message, &consumers[k]);
                    push_str(&mut message, "`; move it into that definition");
                    assert(views(consumers@)[k as int] == consumers@[k as int]@);
                    assert(message@ =~= single_consumer_message(cand.name@, consumers@[k as int]@));
                    out.push(
                        Diagnostic {
                            message,
                            range: cand.range,
                            noqa_offset: Some(cand.range.start),
                        },
                    );
                    assert(diagnostic_views(out@) =~= before + seq![diagnostic_views(out@).last()]);
                } else {
                    assert(diagnostic_views(out@) =~= before + Seq::<DiagnosticView>::empty());
                }
            },
            _ => {
                assert(diagnostic_views(out@) =~= before + Seq::<DiagnosticView>::empty());
            },
        }
        i = i + 1;
    }
    assert(cs.take(cands@.len() as int) =~= cs);
    out
}

/// GR011: the non-public module bindings that one definition alone reads; see
/// [`single_consumer_bindings`].
pub fn check_single_consumer_bindings(module: &Vec<Stmt>) -> (diagnostics: Vec<Diagnostic>)
    ensures
        diagnostic_views(diagnostics@) == single_consumer_bindings(module@),
{
    let cands = candidates_exec(module);
    if cands.len() == 0 {
        let out: Vec<Diagnostic> = Vec::new();
        assert(diagnostic_views(out@) =~= Seq::<DiagnosticView>::empty());
        return out;
    }
    let (events, consumers) = module_walk_exec(module);
    if has_dynamic_access_exec(&events) {
        let out: Vec<Diagnostic> = Vec::new();
        assert(diagnostic_views(out@) =~= Seq::<DiagnosticView>::empty());
        return out;
    }
    flagged_exec(&cands, &events, &consumers)
}

/// The event touches `name`: reads it or mutates it.
pub open spec fn touches(e: Event, name: Seq<char>) -> bool {
    ||| e matches Event::Read { name: n, .. } && n == name
    ||| e matches Event::Mutate { name: n } && n == name
}

/// Every event that touches `name` is a read of it inside consumer `k`, and one does.
pub open spec fn read_only_by(events: Seq<Event>, name: Seq<char>, k: int) -> bool {
    &&& exists|i: int|
        0 <= i < events.len() && #[trigger] events[i] == (Event::Read { name, consumer: Some(k) })
    &&& forall|i: int|
        0 <= i < events.len() && touches(#[trigger] events[i], name) ==> events[i] == (Event::Read {
            name,
            consumer: Some(k),
        })
}

/// A name is attributed to consumer `k` exactly when it is read at least once, every read
/// lies in `k`'s body, and nothing mutates it in place; the order of the events does not
/// matter.
pub proof fn law_single_reader(events: Seq<Event>, name: Seq<char>, k: int)
    ensures
        (reader_of(events, name) == Reader::Consumer(k)) <==> read_only_by(events, name, k),
        (reader_of(events, name) == Reader::Nobody) <==> forall|i: int|
            0 <= i < events.len() ==> !touches(#[trigger] events[i], name),
    decreases events.len(),
{
    if events.len() == 0 {
        return;
    }
    let n = events.len() - 1;
    let init = events.drop_last();
    let last = events.last();
    assert(events[n] == last);
    assert forall|i: int| 0 <= i < n implies #[trigger] events[i] == init[i] by {}
    law_single_reader(init, name, k);
    let r = reader_of(init, name);
    let none_init = forall|i: int| 0 <= i < init.len() ==> !touches(#[trigger] init[i], name);
    let none_all = forall|i: int| 0 <= i < events.len() ==> !touches(#[trigger] events[i], name);
    if !touches(last, name) {
        assert(reader_of(events, name) == r);
        assert(none_all == none_init) by {
            if none_init {
                assert forall|i: int| 0 <= i < events.len() implies !touches(
                    #[trigger] events[i],
                    name,
                ) by {
                    if i < n {
                        assert(init[i] == events[i]);
                    }
                }
            }
            if none_all {
                assert forall|i: int| 0 <= i < init.len() implies !touches(#[trigger] init[i], name) by {
                    assert(events[i] == init[i]);
                }
            }
        }
        assert(read_only_by(events, name, k) == read_only_by(init, name, k)) by {
            let target = Event::Read { name, consumer: Some(k) };
            if read_only_by(init, name, k) {
                let w = choose|i: int| 0 <= i < init.len() && #[trigger] init[i] == target;
                assert(events[w] == init[w]);
                assert forall|i: int|
                    0 <= i < events.len() && touches(#[trigger] events[i], name) implies events[i]
                    == target by {
                    if i < n {
                        assert(init[i] == events[i]);
                    }
                }
            }
            if read_only_by(events, name, k) {
                let w = choose|i: int| 0 <= i < events.len() && #[trigger] events[i] == target;
                assert(touches(events[w], name));
                assert(w < n);
                assert(init[w] == events[w]);
                assert forall|i: int|
                    0 <= i < init.len() && touches(#[trigger] init[i], name) implies init[i]
                    == target by {
                    assert(events[i] == init[i]);
                }
            }
        }
    } else {
        assert(!none_all);
        assert(reader_of(events, name) != Reader::Nobody);
        match last {
            Event::Mutate { .. } => {
                assert(reader_of(events, name) == Reader::Elsewhere);
                assert(!read_only_by(events, name, k));
            },
            Event::Read { consumer, .. } => {
                let target = Event::Read { name, consumer: Some(k) };
                match r {
                    Reader::Nobody => {
                        if read_only_by(events, name, k) {
                            assert(last == target);
                        }
                        if consumer == Some(k) {
                            assert(events[n] == target);
                            assert forall|i: int|
                                0 <= i < events.len() && touches(#[trigger] events[i], name)
                                    implies events[i] == target by {
                                if i < n {
                                    assert(init[i] == events[i]);
                                    assert(!touches(init[i], name));
                                }
                            }
                        }
                    },
                    Reader::Consumer(p) => {
                        law_single_reader(init, name, p);
                        let tp = Event::Read { name, consumer: Some(p) };
                        let w = choose|i: int| 0 <= i < init.len() && #[trigger] init[i] == tp;
                        assert(events[w] == init[w]);
                        if read_only_by(events, name, k) {
                            assert(touches(events[w], name));
                            assert(events[w] == target);
                            assert(p == k);
                            assert(last == target);
                        }
                        if consumer == Some(k) && p == k {
                            assert(events[n] == target);
                            assert forall|i: int|
                                0 <= i < events.len() && touches(#[trigger] events[i], name)
                                    implies events[i] == target by {
                                if i < n {
                                    assert(init[i] == events[i]);
                                }
                            }
                        }
                    },
                    Reader::Elsewhere => {
                        assert(reader_of(events, name) == Reader::Elsewhere);
                        if read_only_by(events, name, k) {
                            let t = choose|i: int| 0 <= i < init.len() && touches(#[trigger] init[i], name);
                            assert(events[t] == init[t]);
                            assert(init[t] == target);
                            assert forall|i: int|
                                0 <= i < init.len() && touches(#[trigger] init[i], name) implies init[i]
                                == target by {
                                assert(events[i] == init[i]);
                            }
                            assert(read_only_by(init, name, k));
                        }
                    },
                }
            },
            _ => {},
        }
    }
}

/// A read of a name: another name's reader is unchanged; the name's reader becomes the
/// consumer when nobody or only that consumer read it before, and someone else otherwise,
/// for good; no binding is added; a read of `eval`, `exec`, `globals` or `vars` makes the
/// module namespace dynamically reachable.
pub proof fn law_read_step(
    events: Seq<Event>,
    read: Seq<char>,
    consumer: Option<int>,
    name: Seq<char>,
)
    ensures
        ({
            let after = events.push(Event::Read { name: read, consumer });
            &&& read != name ==> reader_of(after, name) == reader_of(events, name)
            &&& read == name ==> reader_of(after, name) == match (reader_of(events, name), consumer) {
                (Reader::Nobody, Some(k)) => Reader::Consumer(k),
                (Reader::Consumer(p), Some(k)) => if p == k {
                    Reader::Consumer(p)
                } else {
                    Reader::Elsewhere
                },
                _ => Reader::Elsewhere,
            }
            &&& binding_sites(after, name) == binding_sites(events, name)
            &&& has_dynamic_access(after) == (has_dynamic_access(events) || is_dynamic_name(read))
        }),
{
    let after = events.push(Event::Read { name: read, consumer });
    assert(after.drop_last() =~= events);
    assert(after.last() == Event::Read { name: read, consumer });
    if has_dynamic_access(events) {
        let i = choose|i: int| 0 <= i < events.len() && is_dynamic_read(#[trigger] events[i]);
        assert(after[i] == events[i]);
    }
    if is_dynamic_name(read) {
        assert(is_dynamic_read(after[events.len() as int]));
    }
    if has_dynamic_access(after) {
        let i = choose|i: int| 0 <= i < after.len() && is_dynamic_read(#[trigger] after[i]);
        if i < events.len() {
            assert(after[i] == events[i]);
        }
    }
}

/// Once someone other than a single consumer reads or mutates a name, no later event makes
/// it a single consumer's name again.
pub proof fn law_elsewhere_is_final(events: Seq<Event>, more: Seq<Event>, name: Seq<char>)
    requires
        reader_of(events, name) == Reader::Elsewhere,
    ensures
        reader_of(events + more, name) == Reader::Elsewhere,
    decreases more.len(),
{
    if more.len() == 0 {
        assert(events + more =~= events);
    } else {
        law_elsewhere_is_final(events, more.drop_last(), name);
        assert((events + more).drop_last() =~= events + more.drop_last());
    }
}

} // verus!
