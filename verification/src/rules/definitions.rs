//! Definitions in the sense of the input-convention rules: module-level functions and
//! methods, never what is nested inside a function body, and their inputs.
use vstd::prelude::*;
use crate::syntax::children;
use crate::syntax::children_exec;
use crate::syntax::lemma_children_decrease;
use crate::syntax::Expr;
use crate::syntax::FunctionDef;
use crate::syntax::Parameter;
use crate::syntax::Stmt;
use crate::text::to_chars;

verus! {

/// The definitions found in `s`, each paired with whether it is a method. A function
/// definition is itself a definition and its body is not searched; a class body holds
/// methods; every other statement is searched through its nested suites.
pub open spec fn definitions_in_stmt(s: Stmt, in_class: bool) -> Seq<(FunctionDef, bool)>
    decreases s, 1int, 0int,
{
    match s {
        Stmt::FunctionDef(f) => seq![(f, in_class)],
        Stmt::ClassDef(_) => definitions_in_children(s, true, children(s).len() as int),
        _ => definitions_in_children(s, in_class, children(s).len() as int),
    }
}

/// The definitions found in the first `j` statements nested in `s`.
pub open spec fn definitions_in_children(s: Stmt, in_class: bool, j: int) -> Seq<
    (FunctionDef, bool),
>
    decreases s, 0int, j,
{
    if j <= 0 || j > children(s).len() {
        seq![]
    } else {
        proof {
            lemma_children_decrease(s, j - 1);
        }
        definitions_in_children(s, in_class, j - 1) + definitions_in_stmt(
            children(s)[j - 1],
            in_class,
        )
    }
}

/// The definitions of a suite of module statements.
pub open spec fn definitions_in_suite(stmts: Seq<Stmt>, in_class: bool) -> Seq<
    (FunctionDef, bool),
>
    decreases stmts.len(),
{
    if stmts.len() == 0 {
        seq![]
    } else {
        definitions_in_suite(stmts.drop_last(), in_class) + definitions_in_stmt(
            stmts.last(),
            in_class,
        )
    }
}

pub open spec fn definition_views(defs: Seq<(&FunctionDef, bool)>) -> Seq<(FunctionDef, bool)> {
    defs.map_values(|d: (&FunctionDef, bool)| (*d.0, d.1))
}

/// The definitions of `s`; see [`definitions_in_stmt`].
pub fn find_definitions_in_stmt<'a>(s: &'a Stmt, in_class: bool, out: &mut Vec<(&'a FunctionDef, bool)>)
    ensures
        definition_views(final(out)@) == definition_views(old(out)@) + definitions_in_stmt(
            *s,
            in_class,
        ),
    decreases s, 1int,
{
    let ghost start = definition_views(out@);
    match s {
        Stmt::FunctionDef(f) => {
            out.push((f, in_class));
            assert(definition_views(out@) =~= start + definitions_in_stmt(*s, in_class));
            return ;
        },
        _ => {},
    }
    let nested_in_class = match s {
        Stmt::ClassDef(_) => true,
        _ => in_class,
    };
    let kids = children_exec(s);
    let mut j: usize = 0;
    while j < kids.len()
        invariant
            0 <= j <= kids@.len() == children(*s).len(),
            forall|m: int| 0 <= m < kids@.len() ==> *(#[trigger] kids@[m]) == children(*s)[m],
            definition_views(out@) == start + definitions_in_children(*s, nested_in_class, j as int),
            definitions_in_stmt(*s, in_class) == definitions_in_children(
                *s,
                nested_in_class,
                children(*s).len() as int,
            ),
        decreases kids@.len() - j,
    {
        proof {
            lemma_children_decrease(*s, j as int);
        }
        find_definitions_in_stmt(kids[j], nested_in_class, out);
        j = j + 1;
    }
}

/// The definitions of a module; see [`definitions_in_suite`].
pub fn find_definitions<'a>(stmts: &'a Vec<Stmt>) -> (defs: Vec<(&'a FunctionDef, bool)>)
    ensures
        definition_views(defs@) == definitions_in_suite(stmts@, false),
{
    let mut defs: Vec<(&'a FunctionDef, bool)> = Vec::new();
    let mut i: usize = 0;
    while i < stmts.len()
        invariant
            0 <= i <= stmts@.len(),
            definition_views(defs@) == definitions_in_suite(stmts@.take(i as int), false),
        decreases stmts@.len() - i,
    {
        find_definitions_in_stmt(&stmts[i], false, &mut defs);
        assert(stmts@.take(i + 1).drop_last() =~= stmts@.take(i as int));
        i = i + 1;
    }
    assert(stmts@.take(stmts@.len() as int) =~= stmts@);
    defs
}

/// A non-public name starts with an underscore and does not end with one.
pub open spec fn is_non_public_name(name: Seq<char>) -> bool {
    name.len() > 0 && name[0] == '_' && name.last() != '_'
}

pub fn is_non_public_name_exec(name: &Vec<char>) -> (r: bool)
    ensures
        r == is_non_public_name(name@),
{
    name.len() > 0 && name[0] == '_' && name[name.len() - 1] != '_'
}

/// A decorator list holds the bare name `staticmethod`.
pub open spec fn is_static_method(f: FunctionDef) -> bool {
    exists|i: int|
        0 <= i < f.decorators@.len() && (#[trigger] f.decorators@[i] matches Expr::Name { id, .. }
            && id@ == "staticmethod"@)
}

pub fn is_static_method_exec(f: &FunctionDef) -> (r: bool)
    ensures
        r == is_static_method(*f),
{
    let target = to_chars("staticmethod");
    let mut i: usize = 0;
    while i < f.decorators.len()
        invariant
            0 <= i <= f.decorators@.len(),
            target@ == "staticmethod"@,
            forall|j: int|
                0 <= j < i ==> !(#[trigger] f.decorators@[j] matches Expr::Name { id, .. } && id@
                    == "staticmethod"@),
        decreases f.decorators@.len() - i,
    {
        match &f.decorators[i] {
            Expr::Name { id, .. } => {
                let name = to_chars(id.as_str());
                if crate::text::chars_eq(&name, &target) {
                    return true;
                }
            },
            _ => {},
        }
        i = i + 1;
    }
    false
}

/// An input of a definition: its parameter, and whether it may be passed positionally or
/// by keyword.
pub open spec fn tag_inputs(params: Seq<Parameter>, flag: bool) -> Seq<(Parameter, bool)> {
    params.map_values(|p: Parameter| (p, flag))
}

/// The inputs of a definition: positional-only, then positional-or-keyword parameters,
/// without the receiver of a method that is not static, then keyword-only parameters.
/// Variadic parameters are not inputs.
pub open spec fn classify_inputs(f: FunctionDef, is_method: bool) -> Seq<(Parameter, bool)> {
    let positional = tag_inputs(f.parameters.posonlyargs@, false) + tag_inputs(
        f.parameters.args@,
        true,
    );
    let receivers: int = if is_method && !is_static_method(f) && positional.len() > 0 {
        1
    } else {
        0
    };
    positional.skip(receivers) + tag_inputs(f.parameters.kwonlyargs@, false)
}

pub open spec fn input_views(inputs: Seq<(&Parameter, bool)>) -> Seq<(Parameter, bool)> {
    inputs.map_values(|p: (&Parameter, bool)| (*p.0, p.1))
}

/// The inputs of a definition; see [`classify_inputs`].
pub fn classify_inputs_exec<'a>(f: &'a FunctionDef, is_method: bool) -> (inputs: Vec<
    (&'a Parameter, bool),
>)
    ensures
        input_views(inputs@) == classify_inputs(*f, is_method),
{
    let ghost positional = tag_inputs(f.parameters.posonlyargs@, false) + tag_inputs(
        f.parameters.args@,
        true,
    );
    let has_positional = f.parameters.posonlyargs.len() > 0 || f.parameters.args.len() > 0;
    let skip: usize = if is_method && !is_static_method_exec(f) && has_positional {
        1
    } else {
        0
    };
    let mut inputs: Vec<(&'a Parameter, bool)> = Vec::new();
    let mut i: usize = 0;
    while i < f.parameters.posonlyargs.len()
        invariant
            0 <= i <= f.parameters.posonlyargs@.len(),
            skip <= 1,
            input_views(inputs@) == positional.subrange(
                if (i as int) < (skip as int) { i as int } else { skip as int },
                i as int,
            ),
            positional == tag_inputs(f.parameters.posonlyargs@, false) + tag_inputs(
                f.parameters.args@,
                true,
            ),
        decreases f.parameters.posonlyargs@.len() - i,
    {
        let ghost before = input_views(inputs@);
        if i >= skip {
            inputs.push((&f.parameters.posonlyargs[i], false));
        }
        proof {
            let lo: int = if (i as int) < (skip as int) { i as int } else { skip as int };
            let lo2: int = if (i + 1) < (skip as int) { i + 1 } else { skip as int };
            if i >= skip {
                assert(input_views(inputs@) =~= before.push((f.parameters.posonlyargs@[i as int], false)));
                assert(positional[i as int] == (f.parameters.posonlyargs@[i as int], false));
                assert(positional.subrange(lo2, i + 1) =~= positional.subrange(lo, i as int).push(positional[i as int]));
            } else {
                assert(positional.subrange(lo2, i + 1) =~= Seq::<(Parameter, bool)>::empty());
                assert(input_views(inputs@) =~= before);
            }
        }
        i = i + 1;
    }
    let first = f.parameters.posonlyargs.len();
    let mut k: usize = 0;
    while k < f.parameters.args.len()
        invariant
            first == f.parameters.posonlyargs@.len(),
            0 <= k <= f.parameters.args@.len(),
            skip <= 1,
            positional.len() == first + f.parameters.args@.len(),
            input_views(inputs@) == positional.subrange(
                if (first + k) < (skip as int) { first + k } else { skip as int },
                first + k,
            ),
            positional == tag_inputs(f.parameters.posonlyargs@, false) + tag_inputs(
                f.parameters.args@,
                true,
            ),
        decreases f.parameters.args@.len() - k,
    {
        let ghost before = input_views(inputs@);
        let ghost index: int = first + k;
        if first > 0 || k >= skip {
            inputs.push((&f.parameters.args[k], true));
        }
        proof {
            let lo: int = if index < (skip as int) { index } else { skip as int };
            let lo2: int = if (index + 1) < (skip as int) { index + 1 } else { skip as int };
            if index >= skip {
                assert(input_views(inputs@) =~= before.push((f.parameters.args@[k as int], true)));
                assert(positional[index] == (f.parameters.args@[k as int], true));
                assert(positional.subrange(lo2, index + 1) =~= positional.subrange(lo, index).push(positional[index]));
            } else {
                assert(positional.subrange(lo2, index + 1) =~= Seq::<(Parameter, bool)>::empty());
                assert(input_views(inputs@) =~= before);
            }
        }
        k = k + 1;
    }
    proof {
        if positional.len() == 0 {
            assert(input_views(inputs@) =~= positional.skip(skip as int));
        } else {
            assert(input_views(inputs@) =~= positional.skip(skip as int));
        }
    }
    let ghost head = input_views(inputs@);
    let mut m: usize = 0;
    while m < f.parameters.kwonlyargs.len()
        invariant
            0 <= m <= f.parameters.kwonlyargs@.len(),
            input_views(inputs@) == head + tag_inputs(f.parameters.kwonlyargs@, false).take(
                m as int,
            ),
        decreases f.parameters.kwonlyargs@.len() - m,
    {
        let ghost before = input_views(inputs@);
        inputs.push((&f.parameters.kwonlyargs[m], false));
        proof {
            let tagged = tag_inputs(f.parameters.kwonlyargs@, false);
            assert(input_views(inputs@) =~= before.push(tagged[m as int]));
            assert(tagged.take(m + 1) =~= tagged.take(m as int).push(tagged[m as int]));
        }
        m = m + 1;
    }
    proof {
        let tagged = tag_inputs(f.parameters.kwonlyargs@, false);
        assert(tagged.take(f.parameters.kwonlyargs@.len() as int) =~= tagged);
        assert(skip == (if is_method && !is_static_method(*f) && positional.len() > 0 {
            1int
        } else {
            0int
        }));
    }
    inputs
}

/// A static method (decorated with the bare name `staticmethod`) has no receiver, so every
/// positional-only, positional-or-keyword and keyword-only parameter is an input, in that
/// order, whether or not the definition is a method; only the positional-or-keyword ones may
/// be passed either way.
pub proof fn law_static_method_keeps_every_input(f: FunctionDef, is_method: bool)
    requires
        exists|i: int|
            0 <= i < f.decorators@.len() && (#[trigger] f.decorators@[i] matches Expr::Name {
                id,
                ..
            } && id@ == "staticmethod"@),
    ensures
        classify_inputs(f, is_method) == f.parameters.posonlyargs@.map_values(
            |p: Parameter| (p, false),
        ) + f.parameters.args@.map_values(|p: Parameter| (p, true))
            + f.parameters.kwonlyargs@.map_values(|p: Parameter| (p, false)),
{
    let positional = tag_inputs(f.parameters.posonlyargs@, false) + tag_inputs(
        f.parameters.args@,
        true,
    );
    assert(positional.skip(0) =~= positional);
}

/// A method that is not static drops exactly its first positional parameter, its receiver;
/// a function drops none.
pub proof fn law_receiver_is_the_only_dropped_input(f: FunctionDef, is_method: bool)
    requires
        forall|i: int|
            0 <= i < f.decorators@.len() ==> !(#[trigger] f.decorators@[i] matches Expr::Name {
                id,
                ..
            } && id@ == "staticmethod"@),
    ensures
        ({
            let positional = f.parameters.posonlyargs@.map_values(|p: Parameter| (p, false))
                + f.parameters.args@.map_values(|p: Parameter| (p, true));
            let keyword = f.parameters.kwonlyargs@.map_values(|p: Parameter| (p, false));
            classify_inputs(f, is_method) == if is_method && positional.len() > 0 {
                positional.drop_first() + keyword
            } else {
                positional + keyword
            }
        }),
{
    let positional = tag_inputs(f.parameters.posonlyargs@, false) + tag_inputs(
        f.parameters.args@,
        true,
    );
    assert(positional.skip(0) =~= positional);
    assert(positional.skip(1) =~= positional.drop_first());
}

} // verus!
