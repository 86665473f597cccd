//! What statements bind as they run: walrus targets inside expressions, assignment, deletion
//! and augmented-assignment targets, definition headers, imports and match patterns, each as
//! a sequence of changes to the paths of the GR003 analysis.
use vstd::prelude::*;
use crate::rules::flow_states::copy_chars;
use crate::rules::flow_states::effect_views;
use crate::rules::flow_states::Effect;
use crate::rules::flow_states::EffectOp;
use crate::rules::flow_states::TypeCheckingBinding;
use crate::syntax::Alias;
use crate::syntax::ClassDef;
use crate::syntax::Expr;
use crate::syntax::FunctionDef;
use crate::syntax::Identifier;
use crate::syntax::Parameter;
use crate::syntax::Parameters;
use crate::syntax::Pattern;
use crate::syntax::TextRange;
use crate::syntax::TypeParam;
use crate::syntax::WithItem;
use crate::text::chars_eq;
use crate::text::slice_chars;
use crate::text::to_chars;

verus! {

/// The bindings an expression makes as it evaluates: the targets of its walrus operators, in
/// evaluation order. Comprehensions bind in their own scope and a lambda's body does not run,
/// so neither contributes, though a lambda's parameter defaults and annotations do.
pub open spec fn walrus_effects(e: Expr) -> Seq<Effect>
    decreases e,
{
    match e {
        Expr::Named { target, value, .. } => walrus_effects(*value) + target_effects(
            TargetMode::Collect,
            *target,
        ),
        Expr::Lambda { parameters, .. } => match parameters {
            Some(p) => parameters_walrus(*p),
            None => seq![],
        },
        Expr::Comprehension { .. } => seq![],
        Expr::Attribute { value, .. } => walrus_effects(*value),
        Expr::Subscript { value, slice, .. } => walrus_effects(*value) + walrus_effects(*slice),
        Expr::Starred { value, .. } => walrus_effects(*value),
        Expr::List { elts, .. } => exprs_walrus(elts@),
        Expr::Tuple { elts, .. } => exprs_walrus(elts@),
        Expr::Dict { items, .. } => exprs_walrus(items@),
        Expr::Call { func, arguments, .. } => walrus_effects(*func) + exprs_walrus(arguments@),
        Expr::Compare { left, comparators, .. } => walrus_effects(*left) + exprs_walrus(
            comparators@,
        ),
        Expr::UnaryOp { operand, .. } => walrus_effects(*operand),
        Expr::Other { children, .. } => exprs_walrus(children@),
        _ => seq![],
    }
}

/// The walrus bindings of the expressions, first to last.
pub open spec fn exprs_walrus(es: Seq<Expr>) -> Seq<Effect>
    decreases es,
{
    if es.len() == 0 {
        seq![]
    } else {
        exprs_walrus(es.drop_last()) + walrus_effects(es.last())
    }
}

/// A parameter list evaluates its defaults, then its annotations.
pub open spec fn parameters_walrus(p: Parameters) -> Seq<Effect>
    decreases p,
{
    defaults_walrus(p.posonlyargs@) + defaults_walrus(p.args@) + defaults_walrus(p.kwonlyargs@)
        + annotations_walrus(p.posonlyargs@) + annotations_walrus(p.args@) + (match p.vararg {
        Some(v) => annotation_walrus(*v),
        None => seq![],
    }) + annotations_walrus(p.kwonlyargs@) + (match p.kwarg {
        Some(k) => annotation_walrus(*k),
        None => seq![],
    })
}

pub open spec fn defaults_walrus(ps: Seq<Parameter>) -> Seq<Effect>
    decreases ps,
{
    if ps.len() == 0 {
        seq![]
    } else {
        defaults_walrus(ps.drop_last()) + (match ps.last().default {
            Some(d) => walrus_effects(*d),
            None => seq![],
        })
    }
}

pub open spec fn annotation_walrus(p: Parameter) -> Seq<Effect>
    decreases p,
{
    match p.annotation {
        Some(a) => walrus_effects(*a),
        None => seq![],
    }
}

pub open spec fn annotations_walrus(ps: Seq<Parameter>) -> Seq<Effect>
    decreases ps,
{
    if ps.len() == 0 {
        seq![]
    } else {
        annotations_walrus(ps.drop_last()) + annotation_walrus(ps.last())
    }
}

pub open spec fn optional_walrus(e: Option<Expr>) -> Seq<Effect> {
    match e {
        Some(x) => walrus_effects(x),
        None => seq![],
    }
}

pub open spec fn boxed_walrus(e: Option<Box<Expr>>) -> Seq<Effect> {
    match e {
        Some(x) => walrus_effects(*x),
        None => seq![],
    }
}

/// What a name in a target position does to the paths.
#[derive(Clone, Copy, Debug, PartialEq, Eq, Structural)]
pub enum TargetMode {
    /// Only the names the target would bind.
    Collect,
    /// An assignment: names bind, and an attribute or subscript base evaluates.
    Assign,
    /// An annotated target without storing: only attribute and subscript bases evaluate.
    Evaluate,
    /// A `del`: names are deleted, and attribute and subscript bases evaluate.
    Delete,
}

/// The changes a target makes, left to right through lists, tuples and starred elements.
pub open spec fn target_effects(mode: TargetMode, t: Expr) -> Seq<Effect>
    decreases t,
{
    match t {
        Expr::Name { id, range, .. } => match mode {
            TargetMode::Collect => seq![Effect::Bind { name: id@, range }],
            TargetMode::Assign => seq![Effect::Bind { name: id@, range }],
            TargetMode::Evaluate => seq![],
            TargetMode::Delete => seq![Effect::Delete { name: id@ }],
        },
        Expr::List { elts, .. } => targets_effects(mode, elts@),
        Expr::Tuple { elts, .. } => targets_effects(mode, elts@),
        Expr::Starred { value, .. } => target_effects(mode, *value),
        Expr::Attribute { value, .. } => if mode == TargetMode::Collect {
            seq![]
        } else {
            walrus_effects(*value)
        },
        Expr::Subscript { value, slice, .. } => if mode == TargetMode::Collect {
            seq![]
        } else {
            walrus_effects(*value) + walrus_effects(*slice)
        },
        _ => seq![],
    }
}

pub open spec fn targets_effects(mode: TargetMode, ts: Seq<Expr>) -> Seq<Effect>
    decreases ts,
{
    if ts.len() == 0 {
        seq![]
    } else {
        targets_effects(mode, ts.drop_last()) + target_effects(mode, ts.last())
    }
}

/// An augmented assignment reads its name target before rebinding it.
pub open spec fn augmented_effects(t: Expr) -> Seq<Effect> {
    match t {
        Expr::Name { id, .. } => seq![Effect::Require { name: id@ }],
        Expr::Attribute { value, .. } => walrus_effects(*value),
        Expr::Subscript { value, slice, .. } => walrus_effects(*value) + walrus_effects(*slice),
        _ => seq![],
    }
}

/// The walrus bindings of the bounds and defaults of type parameters.
pub open spec fn type_params_walrus(tps: Seq<TypeParam>) -> Seq<Effect>
    decreases tps.len(),
{
    if tps.len() == 0 {
        seq![]
    } else {
        type_params_walrus(tps.drop_last()) + exprs_walrus(tps.last().children@)
    }
}

/// A function header evaluates its decorators, type parameters, parameters and return
/// annotation.
pub open spec fn function_header_effects(f: FunctionDef) -> Seq<Effect> {
    exprs_walrus(f.decorators@) + type_params_walrus(f.type_params@) + parameters_walrus(
        f.parameters,
    ) + boxed_walrus(f.returns)
}

/// A class header evaluates its decorators, type parameters, bases and keywords.
pub open spec fn class_header_effects(c: ClassDef) -> Seq<Effect> {
    exprs_walrus(c.decorators@) + type_params_walrus(c.type_params@) + (match c.arguments {
        Some(a) => exprs_walrus(a.args@) + exprs_walrus(a.keywords@),
        None => seq![],
    })
}

/// Each `with` item evaluates its context expression, then binds its target.
pub open spec fn with_effects(items: Seq<WithItem>) -> Seq<Effect>
    decreases items.len(),
{
    if items.len() == 0 {
        seq![]
    } else {
        let item = items.last();
        with_effects(items.drop_last()) + walrus_effects(item.context_expr) + (
        match item.optional_vars {
            Some(t) => target_effects(TargetMode::Assign, t),
            None => seq![],
        })
    }
}

/// The index of the first `.` of `name`, or its length.
pub open spec fn dot_index(name: Seq<char>) -> int
    decreases name.len(),
{
    if name.len() == 0 || name[0] == '.' {
        0
    } else {
        1 + dot_index(name.drop_first())
    }
}

/// The text before the first `.`: `import a.b` binds `a`.
pub open spec fn first_component(name: Seq<char>) -> Seq<char> {
    name.take(dot_index(name))
}

pub open spec fn is_typing_module(name: Seq<char>) -> bool {
    name == "typing"@ || name == "typing_extensions"@
}

/// `import` binds each alias, or the first component of a dotted module; binding `typing`
/// itself records that the name stands for the module.
pub open spec fn import_effects(aliases: Seq<Alias>) -> Seq<Effect>
    decreases aliases.len(),
{
    if aliases.len() == 0 {
        seq![]
    } else {
        let alias = aliases.last();
        let (name, range) = match alias.asname {
            Some(a) => (a.id@, a.range),
            None => (first_component(alias.name.id@), alias.name.range),
        };
        import_effects(aliases.drop_last()) + if is_typing_module(alias.name.id@) {
            seq![
                Effect::BindTypeChecking {
                    name,
                    range,
                    kind: TypeCheckingBinding::Module,
                },
            ]
        } else {
            seq![Effect::Bind { name, range }]
        }
    }
}

pub open spec fn is_future_import(module: Option<Seq<char>>, level: u32) -> bool {
    level == 0 && module == Some("__future__"@)
}

/// `from m import ...` binds each alias but `*`; importing `TYPE_CHECKING` from `typing`
/// records that the name stands for the flag.
pub open spec fn import_from_effects(module: Option<Seq<char>>, level: u32, aliases: Seq<Alias>) -> Seq<
    Effect,
>
    decreases aliases.len(),
{
    if aliases.len() == 0 {
        seq![]
    } else {
        let alias = aliases.last();
        let (name, range) = match alias.asname {
            Some(a) => (a.id@, a.range),
            None => (alias.name.id@, alias.name.range),
        };
        let flag = level == 0 && match module {
            Some(m) => is_typing_module(m),
            None => false,
        } && alias.name.id@ == "TYPE_CHECKING"@;
        import_from_effects(module, level, aliases.drop_last()) + if alias.name.id@ == "*"@ {
            seq![]
        } else if flag {
            seq![Effect::BindTypeChecking { name, range, kind: TypeCheckingBinding::Flag }]
        } else {
            seq![Effect::Bind { name, range }]
        }
    }
}

/// The names a match pattern captures, in order; of an or-pattern only the first
/// alternative counts, since every alternative binds the same names.
pub open spec fn pattern_effects(p: Pattern) -> Seq<Effect>
    decreases p,
{
    match p {
        Pattern::MatchSequence { patterns } => patterns_effects(patterns@),
        Pattern::MatchMapping { patterns, rest, .. } => patterns_effects(patterns@) + (match rest {
            Some(n) => seq![Effect::Bind { name: n.id@, range: n.range }],
            None => seq![],
        }),
        Pattern::MatchClass { patterns, keyword_patterns, .. } => patterns_effects(patterns@)
            + patterns_effects(keyword_patterns@),
        Pattern::MatchStar { name } => match name {
            Some(n) => seq![Effect::Bind { name: n.id@, range: n.range }],
            None => seq![],
        },
        Pattern::MatchAs { pattern, name } => (match pattern {
            Some(inner) => pattern_effects(*inner),
            None => seq![],
        }) + (match name {
            Some(n) => seq![Effect::Bind { name: n.id@, range: n.range }],
            None => seq![],
        }),
        Pattern::MatchOr { patterns } => if patterns@.len() > 0 {
            pattern_effects(patterns@[0])
        } else {
            seq![]
        },
        _ => seq![],
    }
}

pub open spec fn patterns_effects(ps: Seq<Pattern>) -> Seq<Effect>
    decreases ps,
{
    if ps.len() == 0 {
        seq![]
    } else {
        patterns_effects(ps.drop_last()) + pattern_effects(ps.last())
    }
}

/// A pattern that matches every subject: a capture or wildcard, or an or-pattern with one.
pub open spec fn is_irrefutable(p: Pattern) -> bool
    decreases p,
{
    match p {
        Pattern::MatchAs { pattern, .. } => pattern is None,
        Pattern::MatchOr { patterns } => any_irrefutable(patterns@),
        _ => false,
    }
}

pub open spec fn any_irrefutable(ps: Seq<Pattern>) -> bool
    decreases ps,
{
    if ps.len() == 0 {
        false
    } else {
        any_irrefutable(ps.drop_last()) || is_irrefutable(ps.last())
    }
}

// Executable counterparts.

/// Appends `more` to `out`.
pub fn append_effects(out: &mut Vec<EffectOp>, more: Vec<EffectOp>)
    ensures
        effect_views(final(out)@) == effect_views(old(out)@) + effect_views(more@),
{
    let mut more = more;
    let ghost a = out@;
    let ghost b = more@;
    out.append(&mut more);
    assert(effect_views(out@) =~= effect_views(a) + effect_views(b));
}

fn bind_op(id: &String, range: TextRange) -> (op: EffectOp)
    ensures
        op@ == (Effect::Bind { name: id@, range }),
{
    EffectOp::Bind { name: to_chars(id.as_str()), range }
}

/// The walrus bindings of an expression; see [`walrus_effects`].
pub fn walrus_effects_exec(e: &Expr) -> (out: Vec<EffectOp>)
    ensures
        effect_views(out@) == walrus_effects(*e),
    decreases e,
{
    match e {
        Expr::Named { target, value, .. } => {
            let mut out = walrus_effects_exec(value);
            let more = target_effects_exec(TargetMode::Collect, target);
            append_effects(&mut out, more);
            out
        },
        Expr::Lambda { parameters, .. } => match parameters {
            Some(p) => parameters_walrus_exec(p),
            None => Vec::new(),
        },
        Expr::Comprehension { .. } => Vec::new(),
        Expr::Attribute { value, .. } => walrus_effects_exec(value),
        Expr::Subscript { value, slice, .. } => {
            let mut out = walrus_effects_exec(value);
            let more = walrus_effects_exec(slice);
            append_effects(&mut out, more);
            out
        },
        Expr::Starred { value, .. } => walrus_effects_exec(value),
        Expr::List { elts, .. } => exprs_walrus_exec(elts),
        Expr::Tuple { elts, .. } => exprs_walrus_exec(elts),
        Expr::Dict { items, .. } => exprs_walrus_exec(items),
        Expr::Call { func, arguments, .. } => {
            let mut out = walrus_effects_exec(func);
            let more = exprs_walrus_exec(arguments);
            append_effects(&mut out, more);
            out
        },
        Expr::Compare { left, comparators, .. } => {
            let mut out = walrus_effects_exec(left);
            let more = exprs_walrus_exec(comparators);
            append_effects(&mut out, more);
            out
        },
        Expr::UnaryOp { operand, .. } => walrus_effects_exec(operand),
        Expr::Other { children, .. } => exprs_walrus_exec(children),
        _ => Vec::new(),
    }
}

/// The walrus bindings of the expressions; see [`exprs_walrus`].
pub fn exprs_walrus_exec(es: &Vec<Expr>) -> (out: Vec<EffectOp>)
    ensures
        effect_views(out@) == exprs_walrus(es@),
    decreases es@,
{
    let mut out: Vec<EffectOp> = Vec::new();
    let mut i: usize = 0;
    assert(es@.take(0) =~= Seq::<Expr>::empty());
    while i < es.len()
        invariant
            0 <= i <= es@.len(),
            effect_views(out@) == exprs_walrus(es@.take(i as int)),
        decreases es@.len() - i,
    {
        assert(es@.take(i + 1).drop_last() =~= es@.take(i as int));
        assert(es@.take(i + 1).last() == es@[i as int]);
        proof {
            assert(decreases_to!(es@ => es@[i as int]));
        }
        let more = walrus_effects_exec(&es[i]);
        append_effects(&mut out, more);
        i = i + 1;
    }
    assert(es@.take(es@.len() as int) =~= es@);
    out
}

/// The walrus bindings of a parameter list; see [`parameters_walrus`].
pub fn parameters_walrus_exec(p: &Parameters) -> (out: Vec<EffectOp>)
    ensures
        effect_views(out@) == parameters_walrus(*p),
    decreases p,
{
    let mut out = defaults_walrus_exec(&p.posonlyargs);
    append_effects(&mut out, defaults_walrus_exec(&p.args));
    append_effects(&mut out, defaults_walrus_exec(&p.kwonlyargs));
    append_effects(&mut out, annotations_walrus_exec(&p.posonlyargs));
    append_effects(&mut out, annotations_walrus_exec(&p.args));
    match &p.vararg {
        Some(v) => append_effects(&mut out, annotation_walrus_exec(v)),
        None => {},
    }
    append_effects(&mut out, annotations_walrus_exec(&p.kwonlyargs));
    match &p.kwarg {
        Some(k) => append_effects(&mut out, annotation_walrus_exec(k)),
        None => {},
    }
    assert(effect_views(out@) =~= parameters_walrus(*p));
    out
}

fn defaults_walrus_exec(ps: &Vec<Parameter>) -> (out: Vec<EffectOp>)
    ensures
        effect_views(out@) == defaults_walrus(ps@),
    decreases ps@,
{
    let mut out: Vec<EffectOp> = Vec::new();
    let mut i: usize = 0;
    assert(ps@.take(0) =~= Seq::<Parameter>::empty());
    while i < ps.len()
        invariant
            0 <= i <= ps@.len(),
            effect_views(out@) == defaults_walrus(ps@.take(i as int)),
        decreases ps@.len() - i,
    {
        assert(ps@.take(i + 1).drop_last() =~= ps@.take(i as int));
        assert(ps@.take(i + 1).last() == ps@[i as int]);
        match &ps[i].default {
            Some(d) => {
                proof {
                    assert(decreases_to!(ps@ => ps@[i as int]));
                    assert(decreases_to!(ps@[i as int] => ps@[i as int].default));
                }
                append_effects(&mut out, walrus_effects_exec(d));
            },
            None => {
                assert(effect_views(out@) =~= effect_views(out@) + Seq::<Effect>::empty());
            },
        }
        i = i + 1;
    }
    assert(ps@.take(ps@.len() as int) =~= ps@);
    out
}

fn annotation_walrus_exec(p: &Parameter) -> (out: Vec<EffectOp>)
    ensures
        effect_views(out@) == annotation_walrus(*p),
    decreases p,
{
    match &p.annotation {
        Some(a) => walrus_effects_exec(a),
        None => Vec::new(),
    }
}

fn annotations_walrus_exec(ps: &Vec<Parameter>) -> (out: Vec<EffectOp>)
    ensures
        effect_views(out@) == annotations_walrus(ps@),
    decreases ps@,
{
    let mut out: Vec<EffectOp> = Vec::new();
    let mut i: usize = 0;
    assert(ps@.take(0) =~= Seq::<Parameter>::empty());
    while i < ps.len()
        invariant
            0 <= i <= ps@.len(),
            effect_views(out@) == annotations_walrus(ps@.take(i as int)),
        decreases ps@.len() - i,
    {
        assert(ps@.take(i + 1).drop_last() =~= ps@.take(i as int));
        assert(ps@.take(i + 1).last() == ps@[i as int]);
        proof {
            assert(decreases_to!(ps@ => ps@[i as int]));
        }
        append_effects(&mut out, annotation_walrus_exec(&ps[i]));
        i = i + 1;
    }
    assert(ps@.take(ps@.len() as int) =~= ps@);
    out
}

pub fn optional_walrus_exec(e: &Option<Expr>) -> (out: Vec<EffectOp>)
    ensures
        effect_views(out@) == optional_walrus(*e),
{
    match e {
        Some(x) => walrus_effects_exec(x),
        None => Vec::new(),
    }
}

pub fn boxed_walrus_exec(e: &Option<Box<Expr>>) -> (out: Vec<EffectOp>)
    ensures
        effect_views(out@) == boxed_walrus(*e),
{
    match e {
        Some(x) => walrus_effects_exec(x),
        None => Vec::new(),
    }
}

/// The changes a target makes; see [`target_effects`].
pub fn target_effects_exec(mode: TargetMode, t: &Expr) -> (out: Vec<EffectOp>)
    ensures
        effect_views(out@) == target_effects(mode, *t),
    decreases t,
{
    match t {
        Expr::Name { id, range, .. } => {
            let mut out: Vec<EffectOp> = Vec::new();
            match mode {
                TargetMode::Collect => out.push(bind_op(id, *range)),
                TargetMode::Assign => out.push(bind_op(id, *range)),
                TargetMode::Evaluate => {},
                TargetMode::Delete => out.push(EffectOp::Delete { name: to_chars(id.as_str()) }),
            }
            assert(effect_views(out@) =~= target_effects(mode, *t));
            out
        },
        Expr::List { elts, .. } => targets_effects_exec(mode, elts),
        Expr::Tuple { elts, .. } => targets_effects_exec(mode, elts),
        Expr::Starred { value, .. } => target_effects_exec(mode, value),
        Expr::Attribute { value, .. } => if mode == TargetMode::Collect {
            Vec::new()
        } else {
            walrus_effects_exec(value)
        },
        Expr::Subscript { value, slice, .. } => if mode == TargetMode::Collect {
            Vec::new()
        } else {
            let mut out = walrus_effects_exec(value);
            append_effects(&mut out, walrus_effects_exec(slice));
            out
        },
        _ => Vec::new(),
    }
}

/// The changes of the targets, left to right; see [`targets_effects`].
pub fn targets_effects_exec(mode: TargetMode, ts: &Vec<Expr>) -> (out: Vec<EffectOp>)
    ensures
        effect_views(out@) == targets_effects(mode, ts@),
    decreases ts@,
{
    let mut out: Vec<EffectOp> = Vec::new();
    let mut i: usize = 0;
    assert(ts@.take(0) =~= Seq::<Expr>::empty());
    while i < ts.len()
        invariant
            0 <= i <= ts@.len(),
            effect_views(out@) == targets_effects(mode, ts@.take(i as int)),
        decreases ts@.len() - i,
    {
        assert(ts@.take(i + 1).drop_last() =~= ts@.take(i as int));
        assert(ts@.take(i + 1).last() == ts@[i as int]);
        proof {
            assert(decreases_to!(ts@ => ts@[i as int]));
        }
        append_effects(&mut out, target_effects_exec(mode, &ts[i]));
        i = i + 1;
    }
    assert(ts@.take(ts@.len() as int) =~= ts@);
    out
}

/// The changes of an augmented-assignment target; see [`augmented_effects`].
pub fn augmented_effects_exec(t: &Expr) -> (out: Vec<EffectOp>)
    ensures
        effect_views(out@) == augmented_effects(*t),
{
    match t {
        Expr::Name { id, .. } => {
            let mut out: Vec<EffectOp> = Vec::new();
            out.push(EffectOp::Require { name: to_chars(id.as_str()) });
            assert(effect_views(out@) =~= augmented_effects(*t));
            out
        },
        Expr::Attribute { value, .. } => walrus_effects_exec(value),
        Expr::Subscript { value, slice, .. } => {
            let mut out = walrus_effects_exec(value);
            append_effects(&mut out, walrus_effects_exec(slice));
            out
        },
        _ => Vec::new(),
    }
}

fn type_params_walrus_exec(tps: &Vec<TypeParam>) -> (out: Vec<EffectOp>)
    ensures
        effect_views(out@) == type_params_walrus(tps@),
{
    let mut out: Vec<EffectOp> = Vec::new();
    let mut i: usize = 0;
    assert(tps@.take(0) =~= Seq::<TypeParam>::empty());
    while i < tps.len()
        invariant
            0 <= i <= tps@.len(),
            effect_views(out@) == type_params_walrus(tps@.take(i as int)),
        decreases tps@.len() - i,
    {
        assert(tps@.take(i + 1).drop_last() =~= tps@.take(i as int));
        assert(tps@.take(i + 1).last() == tps@[i as int]);
        append_effects(&mut out, exprs_walrus_exec(&tps[i].children));
        i = i + 1;
    }
    assert(tps@.take(tps@.len() as int) =~= tps@);
    out
}

/// The bindings a function header makes; see [`function_header_effects`].
pub fn function_header_effects_exec(f: &FunctionDef) -> (out: Vec<EffectOp>)
    ensures
        effect_views(out@) == function_header_effects(*f),
{
    let mut out = exprs_walrus_exec(&f.decorators);
    append_effects(&mut out, type_params_walrus_exec(&f.type_params));
    append_effects(&mut out, parameters_walrus_exec(&f.parameters));
    append_effects(&mut out, boxed_walrus_exec(&f.returns));
    out
}

/// The bindings a class header makes; see [`class_header_effects`].
pub fn class_header_effects_exec(c: &ClassDef) -> (out: Vec<EffectOp>)
    ensures
        effect_views(out@) == class_header_effects(*c),
{
    let mut out = exprs_walrus_exec(&c.decorators);
    append_effects(&mut out, type_params_walrus_exec(&c.type_params));
    match &c.arguments {
        Some(a) => {
            append_effects(&mut out, exprs_walrus_exec(&a.args));
            append_effects(&mut out, exprs_walrus_exec(&a.keywords));
        },
        None => {},
    }
    assert(effect_views(out@) =~= class_header_effects(*c));
    out
}

/// The bindings of `with` items; see [`with_effects`].
pub fn with_effects_exec(items: &Vec<WithItem>) -> (out: Vec<EffectOp>)
    ensures
        effect_views(out@) == with_effects(items@),
{
    let mut out: Vec<EffectOp> = Vec::new();
    let mut i: usize = 0;
    assert(items@.take(0) =~= Seq::<WithItem>::empty());
    while i < items.len()
        invariant
            0 <= i <= items@.len(),
            effect_views(out@) == with_effects(items@.take(i as int)),
        decreases items@.len() - i,
    {
        assert(items@.take(i + 1).drop_last() =~= items@.take(i as int));
        assert(items@.take(i + 1).last() == items@[i as int]);
        let item = &items[i];
        append_effects(&mut out, walrus_effects_exec(&item.context_expr));
        match &item.optional_vars {
            Some(t) => append_effects(&mut out, target_effects_exec(TargetMode::Assign, t)),
            None => {},
        }
        assert(effect_views(out@) =~= with_effects(items@.take(i + 1)));
        i = i + 1;
    }
    assert(items@.take(items@.len() as int) =~= items@);
    out
}

pub fn first_component_exec(name: &Vec<char>) -> (out: Vec<char>)
    ensures
        out@ == first_component(name@),
{
    let mut i: usize = 0;
    assert(name@.skip(0) =~= name@);
    while i < name.len() && name[i] != '.'
        invariant
            0 <= i <= name@.len(),
            dot_index(name@) == i + dot_index(name@.skip(i as int)),
        decreases name@.len() - i,
    {
        assert(name@.skip(i as int).drop_first() =~= name@.skip(i + 1));
        i = i + 1;
    }
    slice_chars(name, 0, i)
}

fn is_typing_module_exec(name: &Vec<char>) -> (r: bool)
    ensures
        r == is_typing_module(name@),
{
    chars_eq(name, &to_chars("typing")) || chars_eq(name, &to_chars("typing_extensions"))
}

/// The bindings of `import`; see [`import_effects`].
pub fn import_effects_exec(aliases: &Vec<Alias>) -> (out: Vec<EffectOp>)
    ensures
        effect_views(out@) == import_effects(aliases@),
{
    let mut out: Vec<EffectOp> = Vec::new();
    let mut i: usize = 0;
    assert(aliases@.take(0) =~= Seq::<Alias>::empty());
    while i < aliases.len()
        invariant
            0 <= i <= aliases@.len(),
            effect_views(out@) == import_effects(aliases@.take(i as int)),
        decreases aliases@.len() - i,
    {
        assert(aliases@.take(i + 1).drop_last() =~= aliases@.take(i as int));
        assert(aliases@.take(i + 1).last() == aliases@[i as int]);
        let alias = &aliases[i];
        let full = to_chars(alias.name.id.as_str());
        let (name, range) = match &alias.asname {
            Some(a) => (to_chars(a.id.as_str()), a.range),
            None => (first_component_exec(&full), alias.name.range),
        };
        let ghost before = effect_views(out@);
        if is_typing_module_exec(&full) {
            out.push(EffectOp::BindTypeChecking { name, range, kind: TypeCheckingBinding::Module });
        } else {
            out.push(EffectOp::Bind { name, range });
        }
        assert(effect_views(out@) =~= before + seq![effect_views(out@).last()]);
        i = i + 1;
    }
    assert(aliases@.take(aliases@.len() as int) =~= aliases@);
    out
}

/// The bindings of `from ... import`; see [`import_from_effects`].
pub fn import_from_effects_exec(module: &Option<String>, level: u32, aliases: &Vec<Alias>) -> (out:
    Vec<EffectOp>)
    ensures
        effect_views(out@) == import_from_effects(
            match module {
                Some(m) => Some(m@),
                None => None,
            },
            level,
            aliases@,
        ),
{
    let ghost m: Option<Seq<char>> = match module {
        Some(x) => Some(x@),
        None => None,
    };
    let from_typing = level == 0 && match module {
        Some(x) => is_typing_module_exec(&to_chars(x.as_str())),
        None => false,
    };
    let mut out: Vec<EffectOp> = Vec::new();
    let mut i: usize = 0;
    assert(aliases@.take(0) =~= Seq::<Alias>::empty());
    while i < aliases.len()
        invariant
            0 <= i <= aliases@.len(),
            from_typing == (level == 0 && match m {
                Some(x) => is_typing_module(x),
                None => false,
            }),
            effect_views(out@) == import_from_effects(m, level, aliases@.take(i as int)),
        decreases aliases@.len() - i,
    {
        assert(aliases@.take(i + 1).drop_last() =~= aliases@.take(i as int));
        assert(aliases@.take(i + 1).last() == aliases@[i as int]);
        let alias = &aliases[i];
        let full = to_chars(alias.name.id.as_str());
        let (name, range) = match &alias.asname {
            Some(a) => (to_chars(a.id.as_str()), a.range),
            None => (copy_chars(&full), alias.name.range),
        };
        let ghost before = effect_views(out@);
        if chars_eq(&full, &to_chars("*")) {
            assert(effect_views(out@) =~= before + Seq::<Effect>::empty());
        } else if from_typing && chars_eq(&full, &to_chars("TYPE_CHECKING")) {
            out.push(EffectOp::BindTypeChecking { name, range, kind: TypeCheckingBinding::Flag });
            assert(effect_views(out@) =~= before + seq![effect_views(out@).last()]);
        } else {
            out.push(EffectOp::Bind { name, range });
            assert(effect_views(out@) =~= before + seq![effect_views(out@).last()]);
        }
        i = i + 1;
    }
    assert(aliases@.take(aliases@.len() as int) =~= aliases@);
    out
}

fn optional_bind(name: &Option<Identifier>) -> (out: Vec<EffectOp>)
    ensures
        effect_views(out@) == match *name {
            Some(n) => seq![Effect::Bind { name: n.id@, range: n.range }],
            None => Seq::<Effect>::empty(),
        },
{
    let mut out: Vec<EffectOp> = Vec::new();
    match name {
        Some(n) => out.push(bind_op(&n.id, n.range)),
        None => {},
    }
    assert(effect_views(out@) =~= match *name {
        Some(n) => seq![Effect::Bind { name: n.id@, range: n.range }],
        None => Seq::<Effect>::empty(),
    });
    out
}

/// The names a match pattern captures; see [`pattern_effects`].
pub fn pattern_effects_exec(p: &Pattern) -> (out: Vec<EffectOp>)
    ensures
        effect_views(out@) == pattern_effects(*p),
    decreases p,
{
    match p {
        Pattern::MatchSequence { patterns } => patterns_effects_exec(patterns),
        Pattern::MatchMapping { patterns, rest, .. } => {
            let mut out = patterns_effects_exec(patterns);
            append_effects(&mut out, optional_bind(rest));
            out
        },
        Pattern::MatchClass { patterns, keyword_patterns, .. } => {
            let mut out = patterns_effects_exec(patterns);
            append_effects(&mut out, patterns_effects_exec(keyword_patterns));
            out
        },
        Pattern::MatchStar { name } => optional_bind(name),
        Pattern::MatchAs { pattern, name } => {
            let mut out = match pattern {
                Some(inner) => pattern_effects_exec(inner),
                None => Vec::new(),
            };
            append_effects(&mut out, optional_bind(name));
            out
        },
        Pattern::MatchOr { patterns } => if patterns.len() > 0 {
            proof {
                assert(decreases_to!(*p => *patterns));
                assert(decreases_to!(*patterns => patterns@));
                assert(decreases_to!(patterns@ => patterns@[0]));
            }
            pattern_effects_exec(&patterns[0])
        } else {
            Vec::new()
        },
        _ => Vec::new(),
    }
}

/// The names the patterns capture, first to last; see [`patterns_effects`].
pub fn patterns_effects_exec(ps: &Vec<Pattern>) -> (out: Vec<EffectOp>)
    ensures
        effect_views(out@) == patterns_effects(ps@),
    decreases ps@,
{
    let mut out: Vec<EffectOp> = Vec::new();
    let mut i: usize = 0;
    assert(ps@.take(0) =~= Seq::<Pattern>::empty());
    while i < ps.len()
        invariant
            0 <= i <= ps@.len(),
            effect_views(out@) == patterns_effects(ps@.take(i as int)),
        decreases ps@.len() - i,
    {
        assert(ps@.take(i + 1).drop_last() =~= ps@.take(i as int));
        assert(ps@.take(i + 1).last() == ps@[i as int]);
        proof {
            assert(decreases_to!(ps@ => ps@[i as int]));
        }
        append_effects(&mut out, pattern_effects_exec(&ps[i]));
        i = i + 1;
    }
    assert(ps@.take(ps@.len() as int) =~= ps@);
    out
}

/// Whether a pattern matches every subject; see [`is_irrefutable`].
pub fn is_irrefutable_exec(p: &Pattern) -> (r: bool)
    ensures
        r == is_irrefutable(*p),
    decreases p,
{
    match p {
        Pattern::MatchAs { pattern, .. } => pattern.is_none(),
        Pattern::MatchOr { patterns } => {
            let mut i: usize = 0;
            assert(patterns@.take(0) =~= Seq::<Pattern>::empty());
            while i < patterns.len()
                invariant
                    0 <= i <= patterns@.len(),
                    *p matches Pattern::MatchOr { patterns: ps } && ps == patterns,
                    !any_irrefutable(patterns@.take(i as int)),
                decreases patterns@.len() - i,
            {
                assert(patterns@.take(i + 1).drop_last() =~= patterns@.take(i as int));
                assert(patterns@.take(i + 1).last() == patterns@[i as int]);
                proof {
                    assert(decreases_to!(*p => *patterns));
                    assert(decreases_to!(*patterns => patterns@));
                    assert(decreases_to!(patterns@ => patterns@[i as int]));
                }
                if is_irrefutable_exec(&patterns[i]) {
                    proof {
                        lemma_any_irrefutable_prefix(patterns@, i + 1);
                    }
                    return true;
                }
                i = i + 1;
            }
            assert(patterns@.take(patterns@.len() as int) =~= patterns@);
            false
        },
        _ => false,
    }
}

proof fn lemma_any_irrefutable_prefix(ps: Seq<Pattern>, k: int)
    requires
        0 <= k <= ps.len(),
        any_irrefutable(ps.take(k)),
    ensures
        any_irrefutable(ps),
    decreases ps.len(),
{
    if k == ps.len() {
        assert(ps.take(k) =~= ps);
    } else {
        assert(ps.drop_last().take(k) =~= ps.take(k));
        lemma_any_irrefutable_prefix(ps.drop_last(), k);
    }
}

} // verus!
