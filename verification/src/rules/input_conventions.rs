//! GR001 explicit-non-public-input-conventions, GR002 required-non-public-inputs,
//! GR005 explicit-public-input-conventions and GR006 no-non-public-docstrings.
use vstd::prelude::*;
use crate::rules::definitions::classify_inputs;
use crate::rules::definitions::classify_inputs_exec;
use crate::rules::definitions::definition_views;
use crate::rules::definitions::definitions_in_suite;
use crate::rules::definitions::find_definitions;
use crate::rules::definitions::input_views;
use crate::rules::definitions::is_non_public_name;
use crate::rules::definitions::is_non_public_name_exec;
use crate::rules::diagnostic_views;
use crate::rules::Diagnostic;
use crate::rules::DiagnosticView;
use crate::syntax::expr_range;
use crate::syntax::expr_range_exec;
use crate::syntax::Expr;
use crate::syntax::FunctionDef;
use crate::syntax::Parameter;
use crate::syntax::Stmt;
use crate::text::push_chars;
use crate::text::push_str;
use crate::text::to_chars;

verus! {

/// Which property of an input a rule demands.
#[derive(Clone, Copy, PartialEq, Eq, Structural)]
pub enum InputCheck {
    /// The input must be positional-only or keyword-only.
    Convention,
    /// The input must have no default.
    Required,
}

/// The input is flagged by the check.
pub open spec fn is_flagged(check: InputCheck, input: (Parameter, bool)) -> bool {
    match check {
        InputCheck::Convention => input.1,
        InputCheck::Required => input.0.default is Some,
    }
}

pub open spec fn input_message(check: InputCheck, name: Seq<char>) -> Seq<char> {
    match check {
        InputCheck::Convention => "Input `"@ + name + "` must be positional-only or keyword-only"@,
        InputCheck::Required => "Non-public input `"@ + name + "` must be required"@,
    }
}

/// A finding on the input's name, whose `noqa` row follows the statement's logical line.
pub open spec fn input_diagnostic(check: InputCheck, p: Parameter) -> DiagnosticView {
    DiagnosticView {
        message: input_message(check, p.name.id@),
        range: p.name.range,
        noqa_offset: None,
    }
}

/// The findings on the flagged inputs, in order.
pub open spec fn input_diagnostics(check: InputCheck, inputs: Seq<(Parameter, bool)>) -> Seq<
    DiagnosticView,
>
    decreases inputs.len(),
{
    if inputs.len() == 0 {
        seq![]
    } else {
        input_diagnostics(check, inputs.drop_last()) + if is_flagged(check, inputs.last()) {
            seq![input_diagnostic(check, inputs.last().0)]
        } else {
            seq![]
        }
    }
}

/// The findings on every definition's inputs, definition after definition.
pub open spec fn definitions_diagnostics(
    check: InputCheck,
    defs: Seq<(FunctionDef, bool)>,
) -> Seq<DiagnosticView>
    decreases defs.len(),
{
    if defs.len() == 0 {
        seq![]
    } else {
        definitions_diagnostics(check, defs.drop_last()) + input_diagnostics(
            check,
            classify_inputs(defs.last().0, defs.last().1),
        )
    }
}

/// The definitions whose names are non-public (or, with `non_public` false, public).
pub open spec fn select_definitions(defs: Seq<(FunctionDef, bool)>, non_public: bool) -> Seq<
    (FunctionDef, bool),
>
    decreases defs.len(),
{
    if defs.len() == 0 {
        seq![]
    } else {
        select_definitions(defs.drop_last(), non_public) + if is_non_public_name(
            defs.last().0.name.id@,
        ) == non_public {
            seq![defs.last()]
        } else {
            seq![]
        }
    }
}

/// GR001: every positional-or-keyword input of a non-public definition.
pub open spec fn explicit_non_public_input_conventions(module: Seq<Stmt>) -> Seq<DiagnosticView> {
    definitions_diagnostics(
        InputCheck::Convention,
        select_definitions(definitions_in_suite(module, false), true),
    )
}

/// GR005: every positional-or-keyword input of a public definition.
pub open spec fn explicit_public_input_conventions(module: Seq<Stmt>) -> Seq<DiagnosticView> {
    definitions_diagnostics(
        InputCheck::Convention,
        select_definitions(definitions_in_suite(module, false), false),
    )
}

/// GR002: every input with a default of a non-public definition.
pub open spec fn required_non_public_inputs(module: Seq<Stmt>) -> Seq<DiagnosticView> {
    definitions_diagnostics(
        InputCheck::Required,
        select_definitions(definitions_in_suite(module, false), true),
    )
}

fn input_message_exec(check: InputCheck, name: &String) -> (message: Vec<char>)
    ensures
        message@ == input_message(check, name@),
{
    let mut message: Vec<char> = Vec::new();
    let name_chars = to_chars(name.as_str());
    match check {
        InputCheck::Convention => {
            push_str(&mut message, "Input `");
            push_chars(&mut message, &name_chars);
            push_str(&mut message, "` must be positional-only or keyword-only");
        },
        InputCheck::Required => {
            push_str(&mut message, "Non-public input `");
            push_chars(&mut message, &name_chars);
            push_str(&mut message, "` must be required");
        },
    }
    message
}

/// The findings of `check` over the inputs of the definitions whose non-publicness is
/// `non_public`.
pub fn check_inputs(module: &Vec<Stmt>, check: InputCheck, non_public: bool) -> (diagnostics: Vec<
    Diagnostic,
>)
    ensures
        diagnostic_views(diagnostics@) == definitions_diagnostics(
            check,
            select_definitions(definitions_in_suite(module@, false), non_public),
        ),
{
    let defs = find_definitions(module);
    let ghost all = definitions_in_suite(module@, false);
    let mut diagnostics: Vec<Diagnostic> = Vec::new();
    let mut i: usize = 0;
    while i < defs.len()
        invariant
            0 <= i <= defs@.len(),
            definition_views(defs@) == all,
            diagnostic_views(diagnostics@) == definitions_diagnostics(
                check,
                select_definitions(all.take(i as int), non_public),
            ),
        decreases defs@.len() - i,
    {
        let (f, is_method) = defs[i];
        let name = to_chars(f.name.id.as_str());
        let selected = is_non_public_name_exec(&name) == non_public;
        proof {
            assert(all.take(i + 1).drop_last() =~= all.take(i as int));
            assert(all.take(i + 1).last() == (*f, is_method));
        }
        if selected {
            let inputs = classify_inputs_exec(f, is_method);
            let ghost base = diagnostic_views(diagnostics@);
            let ghost spec_inputs = classify_inputs(*f, is_method);
            let mut k: usize = 0;
            while k < inputs.len()
                invariant
                    0 <= k <= inputs@.len(),
                    input_views(inputs@) == spec_inputs,
                    diagnostic_views(diagnostics@) == base + input_diagnostics(
                        check,
                        spec_inputs.take(k as int),
                    ),
                decreases inputs@.len() - k,
            {
                let (p, positional_or_keyword) = inputs[k];
                let flagged = match check {
                    InputCheck::Convention => positional_or_keyword,
                    InputCheck::Required => p.default.is_some(),
                };
                proof {
                    assert(spec_inputs.take(k + 1).drop_last() =~= spec_inputs.take(k as int));
                    assert(spec_inputs[k as int] == (*p, positional_or_keyword));
                }
                if flagged {
                    let message = input_message_exec(check, &p.name.id);
                    let ghost before = diagnostic_views(diagnostics@);
                    diagnostics.push(Diagnostic { message, range: p.name.range, noqa_offset: None });
                    assert(diagnostic_views(diagnostics@) =~= before.push(input_diagnostic(check, *p)));
                }
                k = k + 1;
            }
            assert(spec_inputs.take(inputs@.len() as int) =~= spec_inputs);
            proof {
                let sel = select_definitions(all.take(i + 1), non_public);
                assert(sel == select_definitions(all.take(i as int), non_public).push((*f, is_method)));
                assert(sel.drop_last() =~= select_definitions(all.take(i as int), non_public));
            }
        } else {
            proof {
                assert(select_definitions(all.take(i + 1), non_public) =~= select_definitions(
                    all.take(i as int),
                    non_public,
                ));
            }
        }
        i = i + 1;
    }
    assert(all.take(defs@.len() as int) =~= all);
    diagnostics
}

/// The statement is a docstring: an expression statement holding a string literal.
pub open spec fn docstring_of(s: Stmt) -> Option<Expr> {
    match s {
        Stmt::Expr { value, .. } => if value is StringLiteral {
            Some(value)
        } else {
            None
        },
        _ => None,
    }
}

pub open spec fn docstring_message(name: Seq<char>) -> Seq<char> {
    "Remove docstring from non-public definition `"@ + name
        + "`; rename it if its purpose is unclear"@
}

/// The finding on a definition's leading docstring, if it has one.
pub open spec fn docstring_diagnostic(f: FunctionDef) -> Seq<DiagnosticView> {
    if f.body@.len() > 0 && docstring_of(f.body@[0]) is Some {
        let value = docstring_of(f.body@[0])->0;
        seq![
            DiagnosticView {
                message: docstring_message(f.name.id@),
                range: expr_range(value),
                noqa_offset: Some(expr_range(value).end),
            },
        ]
    } else {
        seq![]
    }
}

pub open spec fn docstring_diagnostics(defs: Seq<(FunctionDef, bool)>) -> Seq<DiagnosticView>
    decreases defs.len(),
{
    if defs.len() == 0 {
        seq![]
    } else {
        docstring_diagnostics(defs.drop_last()) + docstring_diagnostic(defs.last().0)
    }
}

/// GR006: the leading docstring of every non-public definition.
pub open spec fn no_non_public_docstrings(module: Seq<Stmt>) -> Seq<DiagnosticView> {
    docstring_diagnostics(select_definitions(definitions_in_suite(module, false), true))
}

/// GR006 over a module; see [`no_non_public_docstrings`].
pub fn check_docstrings(module: &Vec<Stmt>) -> (diagnostics: Vec<Diagnostic>)
    ensures
        diagnostic_views(diagnostics@) == no_non_public_docstrings(module@),
{
    let defs = find_definitions(module);
    let ghost all = definitions_in_suite(module@, false);
    let mut diagnostics: Vec<Diagnostic> = Vec::new();
    let mut i: usize = 0;
    while i < defs.len()
        invariant
            0 <= i <= defs@.len(),
            definition_views(defs@) == all,
            diagnostic_views(diagnostics@) == docstring_diagnostics(
                select_definitions(all.take(i as int), true),
            ),
        decreases defs@.len() - i,
    {
        let (f, is_method) = defs[i];
        let name = to_chars(f.name.id.as_str());
        proof {
            assert(all.take(i + 1).drop_last() =~= all.take(i as int));
            assert(all.take(i + 1).last() == (*f, is_method));
        }
        if is_non_public_name_exec(&name) {
            let ghost before = diagnostic_views(diagnostics@);
            if f.body.len() > 0 {
                match &f.body[0] {
                    Stmt::Expr { value, .. } => {
                        match value {
                            Expr::StringLiteral { .. } => {
                                let range = expr_range_exec(value);
                                let mut message: Vec<char> = Vec::new();
                                push_str(&mut message, "Remove docstring from non-public definition `");
                                push_chars(&mut message, &name);
                                push_str(&mut message, "`; rename it if its purpose is unclear");
                                diagnostics.push(
                                    Diagnostic { message, range, noqa_offset: Some(range.end) },
                                );
                            },
                            _ => {},
                        }
                    },
                    _ => {},
                }
            }
            proof {
                assert(diagnostic_views(diagnostics@) =~= before + docstring_diagnostic(*f));
                let sel = select_definitions(all.take(i + 1), true);
                assert(sel == select_definitions(all.take(i as int), true).push((*f, is_method)));
                assert(sel.drop_last() =~= select_definitions(all.take(i as int), true));
            }
        } else {
            proof {
                assert(select_definitions(all.take(i + 1), true) =~= select_definitions(
                    all.take(i as int),
                    true,
                ));
            }
        }
        i = i + 1;
    }
    assert(all.take(defs@.len() as int) =~= all);
    diagnostics
}

proof fn lemma_split_by_name(check: InputCheck, defs: Seq<(FunctionDef, bool)>)
    ensures
        definitions_diagnostics(check, select_definitions(defs, true)).to_multiset().add(
            definitions_diagnostics(check, select_definitions(defs, false)).to_multiset(),
        ) == definitions_diagnostics(check, defs).to_multiset(),
    decreases defs.len(),
{
    broadcast use vstd::multiset::group_multiset_axioms;
    broadcast use vstd::seq_lib::lemma_multiset_commutative;

    if defs.len() == 0 {
        assert(select_definitions(defs, true) =~= Seq::<(FunctionDef, bool)>::empty());
        assert(select_definitions(defs, false) =~= Seq::<(FunctionDef, bool)>::empty());
        let none = Seq::<DiagnosticView>::empty();
        assert(definitions_diagnostics(check, defs) =~= none);
        vstd::seq_lib::to_multiset_len(none);
        assert(none.to_multiset().len() == 0);
        assert(none.to_multiset() =~= vstd::multiset::Multiset::empty());
    } else {
        let rest = defs.drop_last();
        let d = defs.last();
        lemma_split_by_name(check, rest);
        let own = input_diagnostics(check, classify_inputs(d.0, d.1));
        let mine = is_non_public_name(d.0.name.id@);
        let same = select_definitions(rest, mine);
        let other = select_definitions(rest, !mine);
        assert(select_definitions(defs, mine) =~= same.push(d));
        assert(select_definitions(defs, !mine) =~= other);
        assert(same.push(d).drop_last() =~= same);
        assert(definitions_diagnostics(check, same.push(d)) == definitions_diagnostics(check, same)
            + own);
        assert(definitions_diagnostics(check, defs) == definitions_diagnostics(check, rest) + own);
        assert((definitions_diagnostics(check, same) + own).to_multiset()
            =~= definitions_diagnostics(check, same).to_multiset().add(own.to_multiset()));
        assert((definitions_diagnostics(check, rest) + own).to_multiset()
            =~= definitions_diagnostics(check, rest).to_multiset().add(own.to_multiset()));
    }
}

/// GR001 and GR005 split the definitions by name: together they report exactly the
/// convention findings of every definition, each once.
pub proof fn law_input_conventions_split_by_name(module: Seq<Stmt>)
    ensures
        explicit_non_public_input_conventions(module).to_multiset().add(
            explicit_public_input_conventions(module).to_multiset(),
        ) == definitions_diagnostics(InputCheck::Convention, definitions_in_suite(module, false))
            .to_multiset(),
{
    lemma_split_by_name(InputCheck::Convention, definitions_in_suite(module, false));
}

} // verus!
