//! GR003 package-dunder-all: a package initializer whose completing import path leaves a
//! public binding must define `__all__` on that path. The module's statements are run over
//! a bounded set of paths, each recording what it binds, deletes and requires.
use vstd::prelude::*;
use crate::rules::bindings::augmented_effects;
use crate::rules::bindings::class_header_effects;
use crate::rules::bindings::function_header_effects;
use crate::rules::bindings::import_effects;
use crate::rules::bindings::import_from_effects;
use crate::rules::bindings::is_future_import;
use crate::rules::bindings::is_irrefutable;
use crate::rules::bindings::optional_walrus;
use crate::rules::bindings::pattern_effects;
use crate::rules::bindings::target_effects;
use crate::rules::bindings::targets_effects;
use crate::rules::bindings::walrus_effects;
use crate::rules::bindings::with_effects;
use crate::rules::bindings::TargetMode;
use crate::rules::flow_states::apply_all;
use crate::rules::flow_states::apply_effects;
use crate::rules::flow_states::bad_path_range;
use crate::rules::flow_states::branch_states;
use crate::rules::flow_states::does_handler_catch;
use crate::rules::flow_states::initial_state;
use crate::rules::flow_states::is_normal;
use crate::rules::flow_states::is_not_normal;
use crate::rules::flow_states::raised_name;
use crate::rules::flow_states::replay;
use crate::rules::flow_states::truncated;
use crate::rules::flow_states::MAX_STATES;
use crate::rules::flow_states::Effect;
use crate::rules::flow_states::Flow;
use crate::rules::flow_states::StateView;
use crate::rules::bindings::append_effects;
use crate::rules::bindings::augmented_effects_exec;
use crate::rules::bindings::class_header_effects_exec;
use crate::rules::bindings::function_header_effects_exec;
use crate::rules::bindings::import_effects_exec;
use crate::rules::bindings::import_from_effects_exec;
use crate::rules::bindings::is_irrefutable_exec;
use crate::rules::bindings::optional_walrus_exec;
use crate::rules::bindings::pattern_effects_exec;
use crate::rules::bindings::target_effects_exec;
use crate::rules::bindings::targets_effects_exec;
use crate::rules::bindings::walrus_effects_exec;
use crate::rules::bindings::with_effects_exec;
use crate::rules::flow_states::append_states;
use crate::rules::flow_states::apply_effects_exec;
use crate::rules::flow_states::apply_effects_state;
use crate::rules::flow_states::bad_path_range_exec;
use crate::rules::flow_states::branch_states_exec;
use crate::rules::flow_states::chars_option;
use crate::rules::flow_states::clone_states;
use crate::rules::flow_states::does_handler_catch_exec;
use crate::rules::flow_states::effect_views;
use crate::rules::flow_states::partition_states;
use crate::rules::flow_states::raised_name_exec;
use crate::rules::flow_states::set_flows;
use crate::rules::flow_states::state_views;
use crate::rules::flow_states::truncate_states;
use crate::rules::flow_states::EffectOp;
use crate::rules::flow_states::FlowState;
use crate::rules::diagnostic_views;
use crate::rules::Diagnostic;
use crate::rules::DiagnosticView;
use crate::text::chars_eq;
use crate::text::to_chars;
use crate::syntax::ExceptHandler;
use crate::syntax::Stmt;
use crate::syntax::TextRange;

verus! {

pub open spec fn with_flow(st: StateView, flow: Flow) -> StateView {
    StateView { flow, ..st }
}

pub open spec fn with_flows(states: Seq<StateView>, flow: Flow) -> Seq<StateView> {
    states.map_values(|st: StateView| with_flow(st, flow))
}

/// The paths after a `raise` of the exception, known by name or not.
pub open spec fn raise_all(states: Seq<StateView>, exception: Option<Seq<char>>) -> Seq<StateView> {
    states.map_values(|st: StateView| StateView { flow: Flow::Raised, exception, ..st })
}

/// A handled path continues normally with no exception in flight.
pub open spec fn reset_all(states: Seq<StateView>) -> Seq<StateView> {
    states.map_values(|st: StateView| StateView { flow: Flow::Normal, exception: None, ..st })
}

/// After a `finally` suite completes normally, a path resumes how it entered.
pub open spec fn restore_all(states: Seq<StateView>, prior: Flow) -> Seq<StateView> {
    states.map_values(
        |st: StateView|
            if st.flow == Flow::Normal {
                with_flow(st, prior)
            } else {
                st
            },
    )
}

/// Runs the statements from the `i`-th on: paths that left the suite are carried along,
/// the others run the statement, and at most `MAX_STATES` paths are kept.
pub open spec fn suite_from(stmts: Seq<Stmt>, i: int, states: Seq<StateView>, stub: bool) -> Seq<
    StateView,
>
    decreases stmts, 0int, stmts.len() - i,
{
    if 0 <= i < stmts.len() {
        let carried = states.filter(is_not_normal());
        let ran = stmt_states(stmts[i], states.filter(is_normal()), stub);
        suite_from(stmts, i + 1, truncated(carried + ran), stub)
    } else {
        states
    }
}

/// The paths after a statement, given the paths that reach it.
pub open spec fn stmt_states(s: Stmt, states: Seq<StateView>, stub: bool) -> Seq<StateView>
    decreases s, 2int, 0int,
{
    match s {
        Stmt::FunctionDef(f) => apply_all(
            states,
            function_header_effects(f) + seq![Effect::Bind { name: f.name.id@, range: f.name.range }],
        ),
        Stmt::ClassDef(c) => apply_all(
            states,
            class_header_effects(c) + seq![Effect::Bind { name: c.name.id@, range: c.name.range }],
        ),
        Stmt::Delete { targets, .. } => apply_all(
            states,
            targets_effects(TargetMode::Delete, targets@),
        ),
        Stmt::TypeAlias { name, .. } => apply_all(states, target_effects(TargetMode::Collect, name)),
        Stmt::Assign { targets, value, .. } => apply_all(
            states,
            walrus_effects(value) + targets_effects(TargetMode::Assign, targets@),
        ),
        Stmt::AugAssign { target, value, .. } => apply_all(
            states,
            augmented_effects(target) + walrus_effects(value),
        ),
        Stmt::AnnAssign { target, value, .. } => apply_all(
            states,
            optional_walrus(value) + target_effects(TargetMode::Evaluate, target) + if value is Some
                || stub {
                target_effects(TargetMode::Collect, target)
            } else {
                seq![]
            },
        ),
        Stmt::For { .. } => for_states(s, states, stub),
        Stmt::While { .. } => while_states(s, states, stub),
        Stmt::If { .. } => if_chain(s, 0, states, stub),
        Stmt::With { items, body, .. } => {
            proof {
                assert(decreases_to!(s => body));
                assert(decreases_to!(body => body@));
            }
            suite_from(body@, 0, apply_all(states, with_effects(items@)), stub)
        },
        Stmt::Match { .. } => match_states(s, states, stub),
        Stmt::Raise { exc, cause, .. } => raise_all(
            apply_all(states, optional_walrus(exc) + optional_walrus(cause)),
            match exc {
                Some(e) => raised_name(e),
                None => None,
            },
        ),
        Stmt::Try { .. } => try_states(s, states, stub),
        Stmt::Assert { test, msg, .. } => {
            let (passed, failed) = branch_states(test, apply_all(states, walrus_effects(test)));
            truncated(
                raise_all(apply_all(failed, optional_walrus(msg)), Some("AssertionError"@))
                    + passed,
            )
        },
        Stmt::Import { names, .. } => apply_all(states, import_effects(names@)),
        Stmt::ImportFrom { module, names, level, .. } => {
            let m = match module {
                Some(x) => Some(x@),
                None => None,
            };
            if is_future_import(m, level) {
                states
            } else {
                apply_all(states, import_from_effects(m, level, names@))
            }
        },
        Stmt::Expr { value, .. } => apply_all(states, walrus_effects(value)),
        Stmt::Break { .. } => with_flows(states, Flow::Break),
        Stmt::Continue { .. } => with_flows(states, Flow::Continue),
        _ => states,
    }
}

/// A `for` loop: the `else` suite runs for paths that skip the body and for paths that
/// finish it or continue; a `break` leaves the loop without it.
pub open spec fn for_states(s: Stmt, states: Seq<StateView>, stub: bool) -> Seq<StateView>
    decreases s, 1int, 0int,
{
    match s {
        Stmt::For { target, iter, body, orelse, .. } => {
            proof {
                assert(decreases_to!(s => body));
                assert(decreases_to!(body => body@));
                assert(decreases_to!(s => orelse));
                assert(decreases_to!(orelse => orelse@));
            }
            let evaluated = apply_all(states, walrus_effects(iter));
            let entered = apply_all(evaluated, target_effects(TargetMode::Assign, target));
            let ran = suite_from(body@, 0, entered, stub);
            for_fold(s, ran, 0, suite_from(orelse@, 0, evaluated, stub), stub)
        },
        _ => states,
    }
}

pub open spec fn for_fold(
    s: Stmt,
    ran: Seq<StateView>,
    j: int,
    result: Seq<StateView>,
    stub: bool,
) -> Seq<StateView>
    decreases s, 0int, ran.len() - j,
{
    match s {
        Stmt::For { orelse, .. } => if 0 <= j < ran.len() {
            proof {
                assert(decreases_to!(s => orelse));
                assert(decreases_to!(orelse => orelse@));
            }
            let st = ran[j];
            let next = match st.flow {
                Flow::Normal => result + suite_from(
                    orelse@,
                    0,
                    seq![with_flow(st, Flow::Normal)],
                    stub,
                ),
                Flow::Continue => result + suite_from(
                    orelse@,
                    0,
                    seq![with_flow(st, Flow::Normal)],
                    stub,
                ),
                Flow::Break => result.push(with_flow(st, Flow::Normal)),
                Flow::Raised => result.push(st),
            };
            for_fold(s, ran, j + 1, truncated(next), stub)
        } else {
            result
        },
        _ => result,
    }
}

/// A `while` loop: the test decides entry and, after each pass through the body, exit
/// into the `else` suite.
pub open spec fn while_states(s: Stmt, states: Seq<StateView>, stub: bool) -> Seq<StateView>
    decreases s, 1int, 0int,
{
    match s {
        Stmt::While { test, body, orelse, .. } => {
            proof {
                assert(decreases_to!(s => body));
                assert(decreases_to!(body => body@));
                assert(decreases_to!(s => orelse));
                assert(decreases_to!(orelse => orelse@));
            }
            let (entered, skipped) = branch_states(test, apply_all(states, walrus_effects(test)));
            let ran = suite_from(body@, 0, entered, stub);
            while_fold(s, ran, 0, suite_from(orelse@, 0, skipped, stub), stub)
        },
        _ => states,
    }
}

pub open spec fn while_fold(
    s: Stmt,
    ran: Seq<StateView>,
    j: int,
    result: Seq<StateView>,
    stub: bool,
) -> Seq<StateView>
    decreases s, 0int, ran.len() - j,
{
    match s {
        Stmt::While { test, orelse, .. } => if 0 <= j < ran.len() {
            proof {
                assert(decreases_to!(s => orelse));
                assert(decreases_to!(orelse => orelse@));
            }
            let st = ran[j];
            let again = apply_effects(with_flow(st, Flow::Normal), walrus_effects(test));
            let next = match st.flow {
                Flow::Break => result.push(with_flow(st, Flow::Normal)),
                Flow::Raised => result.push(st),
                _ => result + suite_from(orelse@, 0, branch_states(test, seq![again]).1, stub),
            };
            while_fold(s, ran, j + 1, truncated(next), stub)
        } else {
            result
        },
        _ => result,
    }
}

/// An `if` statement from its `k`-th branch on: `0` is the `if` itself, `k > 0` the
/// `(k - 1)`-th `elif` or `else` clause.
pub open spec fn if_chain(s: Stmt, k: int, states: Seq<StateView>, stub: bool) -> Seq<StateView>
    decreases s, 1int, if s is If {
        s->If_clauses@.len() + 1 - k
    } else {
        0
    },
{
    match s {
        Stmt::If { test, body, clauses, .. } => if k == 0 {
            proof {
                assert(decreases_to!(s => body));
                assert(decreases_to!(body => body@));
            }
            let (matched, skipped) = branch_states(test, apply_all(states, walrus_effects(test)));
            truncated(suite_from(body@, 0, matched, stub) + if_chain(s, 1, skipped, stub))
        } else if 0 < k <= clauses@.len() {
            let clause = clauses@[k - 1];
            proof {
                assert(decreases_to!(s => clauses));
                assert(decreases_to!(clauses => clauses@));
                assert(decreases_to!(clauses@ => clauses@[k - 1]));
                assert(decreases_to!(clause => clause.body));
                assert(decreases_to!(clause.body => clause.body@));
            }
            match clause.test {
                Some(t) => {
                    let (matched, skipped) = branch_states(t, apply_all(states, walrus_effects(t)));
                    truncated(suite_from(clause.body@, 0, matched, stub) + if_chain(
                        s,
                        k + 1,
                        skipped,
                        stub,
                    ))
                },
                None => suite_from(clause.body@, 0, states, stub),
            }
        } else {
            states
        },
        _ => states,
    }
}

/// A `match` statement: the cases in order, each taking the paths no earlier case matched.
pub open spec fn match_states(s: Stmt, states: Seq<StateView>, stub: bool) -> Seq<StateView>
    decreases s, 1int, 0int,
{
    match s {
        Stmt::Match { subject, .. } => match_fold(
            s,
            0,
            seq![],
            apply_all(states, walrus_effects(subject)),
            stub,
        ),
        _ => states,
    }
}

pub open spec fn match_fold(
    s: Stmt,
    k: int,
    result: Seq<StateView>,
    remaining: Seq<StateView>,
    stub: bool,
) -> Seq<StateView>
    decreases s, 0int, if s is Match {
        s->cases@.len() - k
    } else {
        0
    },
{
    match s {
        Stmt::Match { cases, .. } => if 0 <= k < cases@.len() {
            let case = cases@[k];
            proof {
                assert(decreases_to!(s => cases));
                assert(decreases_to!(cases => cases@));
                assert(decreases_to!(cases@ => cases@[k]));
                assert(decreases_to!(case => case.body));
                assert(decreases_to!(case.body => case.body@));
            }
            let bound = apply_all(remaining, pattern_effects(case.pattern));
            let unmatched = if is_irrefutable(case.pattern) {
                seq![]
            } else {
                remaining
            };
            let (matched, unmatched) = match case.guard {
                Some(g) => {
                    let (accepted, rejected) = branch_states(
                        g,
                        apply_all(bound, walrus_effects(g)),
                    );
                    (accepted, truncated(unmatched + rejected))
                },
                None => (bound, unmatched),
            };
            let next = truncated(result + suite_from(case.body@, 0, matched, stub));
            if unmatched.len() == 0 {
                truncated(next + unmatched)
            } else {
                match_fold(s, k + 1, next, unmatched, stub)
            }
        } else {
            truncated(result + remaining)
        },
        _ => truncated(result + remaining),
    }
}

/// The handler a raised path runs, with the path after evaluating the handler types tried
/// up to it; `None` when no handler catches.
pub open spec fn select_handler(handlers: Seq<ExceptHandler>, st: StateView, k: int) -> (
    StateView,
    Option<int>,
)
    decreases handlers.len() - k,
{
    if 0 <= k < handlers.len() {
        let h = handlers[k];
        let evaluated = match h.type_ {
            Some(t) => apply_effects(st, walrus_effects(*t)),
            None => st,
        };
        if does_handler_catch(
            match h.type_ {
                Some(t) => Some(*t),
                None => None,
            },
            evaluated.exception,
        ) {
            (evaluated, Some(k))
        } else {
            select_handler(handlers, evaluated, k + 1)
        }
    } else {
        (st, None)
    }
}

/// The raised paths from the `j`-th on, sorted into each handler's inputs and those no
/// handler catches.
pub open spec fn select_fold(
    handlers: Seq<ExceptHandler>,
    raised: Seq<StateView>,
    j: int,
    inputs: Seq<Seq<StateView>>,
    uncaught: Seq<StateView>,
) -> (Seq<Seq<StateView>>, Seq<StateView>)
    decreases raised.len() - j,
{
    if 0 <= j < raised.len() {
        let (st, selected) = select_handler(handlers, raised[j], 0);
        match selected {
            Some(i) => select_fold(
                handlers,
                raised,
                j + 1,
                inputs.update(i, inputs[i].push(st)),
                uncaught,
            ),
            None => select_fold(handlers, raised, j + 1, inputs, uncaught.push(st)),
        }
    } else {
        (inputs, uncaught)
    }
}

/// The `try` body's paths from the `j`-th on: completing ones run the `else` suite,
/// raised ones wait for the handlers, and the rest pass through.
pub open spec fn try_body_fold(
    s: Stmt,
    attempted: Seq<StateView>,
    j: int,
    result: Seq<StateView>,
    raised: Seq<StateView>,
    stub: bool,
) -> (Seq<StateView>, Seq<StateView>)
    decreases s, 0int, attempted.len() - j,
{
    match s {
        Stmt::Try { orelse, .. } => if 0 <= j < attempted.len() {
            proof {
                assert(decreases_to!(s => orelse));
                assert(decreases_to!(orelse => orelse@));
            }
            let st = attempted[j];
            match st.flow {
                Flow::Normal => try_body_fold(
                    s,
                    attempted,
                    j + 1,
                    result + suite_from(orelse@, 0, seq![st], stub),
                    raised,
                    stub,
                ),
                Flow::Raised => try_body_fold(s, attempted, j + 1, result, raised.push(st), stub),
                _ => try_body_fold(s, attempted, j + 1, result.push(st), raised, stub),
            }
        } else {
            (result, raised)
        },
        _ => (result, raised),
    }
}

/// The handlers from the `k`-th on, each running its body on the paths it caught, with its
/// name bound during the body and deleted after it.
pub open spec fn handlers_fold(
    s: Stmt,
    k: int,
    inputs: Seq<Seq<StateView>>,
    result: Seq<StateView>,
    stub: bool,
) -> Seq<StateView>
    decreases s, 0int, if s is Try {
        s->handlers@.len() - k
    } else {
        0
    },
{
    match s {
        Stmt::Try { handlers, .. } => if 0 <= k < handlers@.len() && k < inputs.len() {
            let h = handlers@[k];
            proof {
                assert(decreases_to!(s => handlers));
                assert(decreases_to!(handlers => handlers@));
                assert(decreases_to!(handlers@ => handlers@[k]));
                assert(decreases_to!(h => h.body));
                assert(decreases_to!(h.body => h.body@));
            }
            let entering = match h.name {
                Some(n) => apply_all(
                    reset_all(inputs[k]),
                    seq![Effect::Bind { name: n.id@, range: n.range }],
                ),
                None => reset_all(inputs[k]),
            };
            let ran = suite_from(h.body@, 0, entering, stub);
            let left = match h.name {
                Some(n) => apply_all(ran, seq![Effect::Delete { name: n.id@ }]),
                None => ran,
            };
            handlers_fold(s, k + 1, inputs, truncated(result + left), stub)
        } else {
            result
        },
        _ => result,
    }
}

/// The `finally` suite for the paths from the `j`-th on, each resuming how it entered.
pub open spec fn finally_fold(
    s: Stmt,
    states: Seq<StateView>,
    j: int,
    result: Seq<StateView>,
    stub: bool,
) -> Seq<StateView>
    decreases s, 0int, states.len() - j,
{
    match s {
        Stmt::Try { finalbody, .. } => if 0 <= j < states.len() {
            proof {
                assert(decreases_to!(s => finalbody));
                assert(decreases_to!(finalbody => finalbody@));
            }
            let st = states[j];
            let ran = suite_from(finalbody@, 0, seq![with_flow(st, Flow::Normal)], stub);
            finally_fold(s, states, j + 1, truncated(result + restore_all(ran, st.flow)), stub)
        } else {
            result
        },
        _ => result,
    }
}

/// A `try` statement: body, `else`, handlers, uncaught paths, then `finally`.
pub open spec fn try_states(s: Stmt, states: Seq<StateView>, stub: bool) -> Seq<StateView>
    decreases s, 1int, 0int,
{
    match s {
        Stmt::Try { body, handlers, finalbody, .. } => {
            proof {
                assert(decreases_to!(s => body));
                assert(decreases_to!(body => body@));
            }
            let attempted = suite_from(body@, 0, states, stub);
            let (result, raised) = try_body_fold(s, attempted, 0, seq![], seq![], stub);
            let (inputs, uncaught) = select_fold(
                handlers@,
                raised,
                0,
                Seq::new(handlers@.len(), |i: int| Seq::<StateView>::empty()),
                seq![],
            );
            let handled = truncated(handlers_fold(s, 0, inputs, result, stub) + uncaught);
            if finalbody@.len() == 0 {
                handled
            } else {
                finally_fold(s, handled, 0, seq![], stub)
            }
        },
        _ => states,
    }
}

/// The paths at the end of a module.
pub open spec fn module_states(module: Seq<Stmt>, stub: bool) -> Seq<StateView> {
    suite_from(module, 0, seq![initial_state()], stub)
}

/// The first completing path's bad range with the smallest start, from the `j`-th path on.
pub open spec fn first_bad_from(states: Seq<StateView>, j: int, best: Option<TextRange>) -> Option<
    TextRange,
>
    decreases states.len() - j,
{
    if 0 <= j < states.len() {
        let st = states[j];
        let next = if st.flow == Flow::Normal && bad_path_range(st) is Some && (best is None
            || bad_path_range(st)->0.start < best->0.start) {
            bad_path_range(st)
        } else {
            best
        };
        first_bad_from(states, j + 1, next)
    } else {
        best
    }
}

pub open spec fn dunder_all_message() -> Seq<char> {
    "Package initializer with public bindings must define __all__ on every import path"@
}

pub open spec fn is_package_initializer(file_name: Seq<char>) -> bool {
    file_name == "__init__.py"@ || file_name == "__init__.pyi"@
}

/// GR003 over a file's name and statements: at most one finding, at the earliest public
/// binding that a completing path leaves without `__all__`.
pub open spec fn package_dunder_all(file_name: Option<Seq<char>>, module: Seq<Stmt>) -> Seq<
    DiagnosticView,
> {
    match file_name {
        Some(name) => if is_package_initializer(name) {
            match first_bad_from(module_states(module, name == "__init__.pyi"@), 0, None) {
                Some(range) => seq![
                    DiagnosticView { message: dunder_all_message(), range, noqa_offset: None },
                ],
                None => seq![],
            }
        } else {
            seq![]
        },
        None => seq![],
    }
}

// Executable counterparts.

fn with_flows_exec(states: &mut Vec<FlowState>, flow: Flow)
    ensures
        state_views(final(states)@) == with_flows(state_views(old(states)@), flow),
{
    set_flows(states, flow, None, false);
    assert(state_views(states@) =~= with_flows(state_views(old(states)@), flow));
}

fn raise_all_exec(states: &mut Vec<FlowState>, exception: Option<Vec<char>>)
    ensures
        state_views(final(states)@) == raise_all(state_views(old(states)@), chars_option(exception)),
{
    set_flows(states, Flow::Raised, exception, true);
    assert(state_views(states@) =~= raise_all(state_views(old(states)@), chars_option(exception)));
}

fn reset_all_exec(states: &mut Vec<FlowState>)
    ensures
        state_views(final(states)@) == reset_all(state_views(old(states)@)),
{
    set_flows(states, Flow::Normal, None, true);
    assert(state_views(states@) =~= reset_all(state_views(old(states)@)));
}

fn restore_all_exec(states: &mut Vec<FlowState>, prior: Flow)
    ensures
        state_views(final(states)@) == restore_all(state_views(old(states)@), prior),
{
    let ghost orig = states@;
    let mut i: usize = 0;
    while i < states.len()
        invariant
            0 <= i <= states@.len() == orig.len(),
            forall|m: int|
                0 <= m < i ==> (#[trigger] states@[m])@ == (if orig[m]@.flow == Flow::Normal {
                    with_flow(orig[m]@, prior)
                } else {
                    orig[m]@
                }),
            forall|m: int| i <= m < states@.len() ==> (#[trigger] states@[m]) == orig[m],
        decreases states@.len() - i,
    {
        let mut st = states.remove(i);
        if st.flow == Flow::Normal {
            st.flow = prior;
        }
        states.insert(i, st);
        i = i + 1;
    }
    assert(state_views(states@) =~= restore_all(state_views(orig), prior));
}

fn single(st: FlowState) -> (out: Vec<FlowState>)
    ensures
        state_views(out@) == seq![st@],
{
    let mut out: Vec<FlowState> = Vec::new();
    out.push(st);
    assert(state_views(out@) =~= seq![st@]);
    out
}

/// Runs a suite; see [`suite_from`].
pub fn suite_exec(stmts: &Vec<Stmt>, states: Vec<FlowState>, stub: bool) -> (out: Vec<FlowState>)
    ensures
        state_views(out@) == suite_from(stmts@, 0, state_views(states@), stub),
    decreases stmts@, 0int, 0int,
{
    let ghost goal = suite_from(stmts@, 0, state_views(states@), stub);
    let mut states = states;
    let mut i: usize = 0;
    while i < stmts.len()
        invariant
            0 <= i <= stmts@.len(),
            suite_from(stmts@, i as int, state_views(states@), stub) == goal,
        decreases stmts@.len() - i,
    {
        let (normal, carried) = partition_states(states);
        proof {
            assert(decreases_to!(stmts@ => stmts@[i as int]));
        }
        let ran = stmt_exec(&stmts[i], normal, stub);
        let mut next = carried;
        append_states(&mut next, ran);
        truncate_states(&mut next);
        states = next;
        i = i + 1;
    }
    states
}

fn apply_with_bind(states: &mut Vec<FlowState>, mut effects: Vec<EffectOp>, name: &String, range: TextRange)
    ensures
        state_views(final(states)@) == apply_all(
            state_views(old(states)@),
            effect_views(effects@) + seq![Effect::Bind { name: name@, range }],
        ),
{
    let ghost before = effect_views(effects@);
    effects.push(EffectOp::Bind { name: to_chars(name.as_str()), range });
    assert(effect_views(effects@) =~= before + seq![Effect::Bind { name: name@, range }]);
    apply_effects_exec(states, &effects);
}

/// The paths after a statement; see [`stmt_states`].
pub fn stmt_exec(s: &Stmt, states: Vec<FlowState>, stub: bool) -> (out: Vec<FlowState>)
    ensures
        state_views(out@) == stmt_states(*s, state_views(states@), stub),
    decreases s, 2int, 0int,
{
    let mut states = states;
    match s {
        Stmt::FunctionDef(f) => {
            apply_with_bind(&mut states, function_header_effects_exec(f), &f.name.id, f.name.range);
            states
        },
        Stmt::ClassDef(c) => {
            apply_with_bind(&mut states, class_header_effects_exec(c), &c.name.id, c.name.range);
            states
        },
        Stmt::Delete { targets, .. } => {
            apply_effects_exec(&mut states, &targets_effects_exec(TargetMode::Delete, targets));
            states
        },
        Stmt::TypeAlias { name, .. } => {
            apply_effects_exec(&mut states, &target_effects_exec(TargetMode::Collect, name));
            states
        },
        Stmt::Assign { targets, value, .. } => {
            let mut effects = walrus_effects_exec(value);
            append_effects(&mut effects, targets_effects_exec(TargetMode::Assign, targets));
            apply_effects_exec(&mut states, &effects);
            states
        },
        Stmt::AugAssign { target, value, .. } => {
            let mut effects = augmented_effects_exec(target);
            append_effects(&mut effects, walrus_effects_exec(value));
            apply_effects_exec(&mut states, &effects);
            states
        },
        Stmt::AnnAssign { target, value, .. } => {
            let mut effects = optional_walrus_exec(value);
            append_effects(&mut effects, target_effects_exec(TargetMode::Evaluate, target));
            if value.is_some() || stub {
                append_effects(&mut effects, target_effects_exec(TargetMode::Collect, target));
            } else {
                assert(effect_views(effects@) =~= effect_views(effects@) + Seq::<Effect>::empty());
            }
            apply_effects_exec(&mut states, &effects);
            states
        },
        Stmt::For { .. } => for_exec(s, states, stub),
        Stmt::While { .. } => while_exec(s, states, stub),
        Stmt::If { .. } => if_chain_exec(s, 0, states, stub),
        Stmt::With { items, body, .. } => {
            apply_effects_exec(&mut states, &with_effects_exec(items));
            proof {
                assert(decreases_to!(*s => *body));
                assert(decreases_to!(*body => body@));
            }
            suite_exec(body, states, stub)
        },
        Stmt::Match { .. } => match_exec(s, states, stub),
        Stmt::Raise { exc, cause, .. } => {
            let mut effects = optional_walrus_exec(exc);
            append_effects(&mut effects, optional_walrus_exec(cause));
            apply_effects_exec(&mut states, &effects);
            let name = match exc {
                Some(e) => raised_name_exec(e),
                None => None,
            };
            raise_all_exec(&mut states, name);
            states
        },
        Stmt::Try { .. } => try_exec(s, states, stub),
        Stmt::Assert { test, msg, .. } => {
            apply_effects_exec(&mut states, &walrus_effects_exec(test));
            let (passed, mut failed) = branch_states_exec(test, states);
            apply_effects_exec(&mut failed, &optional_walrus_exec(msg));
            raise_all_exec(&mut failed, Some(to_chars("AssertionError")));
            append_states(&mut failed, passed);
            truncate_states(&mut failed);
            failed
        },
        Stmt::Import { names, .. } => {
            apply_effects_exec(&mut states, &import_effects_exec(names));
            states
        },
        Stmt::ImportFrom { module, names, level, .. } => {
            let future = *level == 0 && match module {
                Some(m) => chars_eq(&to_chars(m.as_str()), &to_chars("__future__")),
                None => false,
            };
            if future {
                states
            } else {
                apply_effects_exec(&mut states, &import_from_effects_exec(module, *level, names));
                states
            }
        },
        Stmt::Expr { value, .. } => {
            apply_effects_exec(&mut states, &walrus_effects_exec(value));
            states
        },
        Stmt::Break { .. } => {
            with_flows_exec(&mut states, Flow::Break);
            states
        },
        Stmt::Continue { .. } => {
            with_flows_exec(&mut states, Flow::Continue);
            states
        },
        _ => states,
    }
}

/// A `for` loop; see [`for_states`].
fn for_exec(s: &Stmt, states: Vec<FlowState>, stub: bool) -> (out: Vec<FlowState>)
    requires
        s is For,
    ensures
        state_views(out@) == for_states(*s, state_views(states@), stub),
    decreases s, 1int, 0int,
{
    match s {
        Stmt::For { target, iter, body, orelse, .. } => {
            proof {
                assert(decreases_to!(*s => *body));
                assert(decreases_to!(*body => body@));
                assert(decreases_to!(*s => *orelse));
                assert(decreases_to!(*orelse => orelse@));
            }
            let mut evaluated = states;
            apply_effects_exec(&mut evaluated, &walrus_effects_exec(iter));
            let mut entered = clone_states(&evaluated);
            apply_effects_exec(&mut entered, &target_effects_exec(TargetMode::Assign, target));
            let mut ran = suite_exec(body, entered, stub);
            let mut result = suite_exec(orelse, evaluated, stub);
            let ghost all = state_views(ran@);
            let ghost goal = for_fold(*s, all, 0, state_views(result@), stub);
            let ghost mut j: int = 0;
            assert(all.skip(0) =~= all);
            while ran.len() > 0
                invariant
                    0 <= j <= all.len(),
                    state_views(ran@) == all.skip(j),
                    for_fold(*s, all, j, state_views(result@), stub) == goal,
                    s is For,
                    *s matches Stmt::For { orelse: o, .. } && o == orelse,
                decreases ran@.len(),
            {
                assert(state_views(ran@).len() == ran@.len());
                let ghost before = ran@;
                let st = ran.remove(0);
                assert(state_views(ran@) =~= state_views(before).remove(0));
                assert(state_views(before)[0] == st@);
                assert(all.skip(j)[0] == all[j]);
                assert(state_views(ran@) =~= all.skip(j + 1));
                let mut st = st;
                match st.flow {
                    Flow::Normal | Flow::Continue => {
                        st.flow = Flow::Normal;
                        let more = suite_exec(orelse, single(st), stub);
                        append_states(&mut result, more);
                    },
                    Flow::Break => {
                        st.flow = Flow::Normal;
                        let ghost r0 = state_views(result@);
                        result.push(st);
                        assert(state_views(result@) =~= r0.push(st@));
                    },
                    Flow::Raised => {
                        let ghost r0 = state_views(result@);
                        result.push(st);
                        assert(state_views(result@) =~= r0.push(st@));
                    },
                }
                truncate_states(&mut result);
                proof {
                    j = j + 1;
                }
            }
            assert(j == all.len());
            result
        },
        _ => states,
    }
}

/// A `while` loop; see [`while_states`].
fn while_exec(s: &Stmt, states: Vec<FlowState>, stub: bool) -> (out: Vec<FlowState>)
    requires
        s is While,
    ensures
        state_views(out@) == while_states(*s, state_views(states@), stub),
    decreases s, 1int, 0int,
{
    match s {
        Stmt::While { test, body, orelse, .. } => {
            proof {
                assert(decreases_to!(*s => *body));
                assert(decreases_to!(*body => body@));
                assert(decreases_to!(*s => *orelse));
                assert(decreases_to!(*orelse => orelse@));
            }
            let test_effects = walrus_effects_exec(test);
            let mut states = states;
            apply_effects_exec(&mut states, &test_effects);
            let (entered, skipped) = branch_states_exec(test, states);
            let mut ran = suite_exec(body, entered, stub);
            let mut result = suite_exec(orelse, skipped, stub);
            let ghost all = state_views(ran@);
            let ghost goal = while_fold(*s, all, 0, state_views(result@), stub);
            let ghost mut j: int = 0;
            assert(all.skip(0) =~= all);
            while ran.len() > 0
                invariant
                    0 <= j <= all.len(),
                    state_views(ran@) == all.skip(j),
                    while_fold(*s, all, j, state_views(result@), stub) == goal,
                    *s matches Stmt::While { test: t, orelse: o, .. } && o == orelse && t == test,
                    effect_views(test_effects@) == walrus_effects(*test),
                decreases ran@.len(),
            {
                assert(state_views(ran@).len() == ran@.len());
                let ghost before = ran@;
                let st = ran.remove(0);
                assert(state_views(ran@) =~= state_views(before).remove(0));
                assert(state_views(before)[0] == st@);
                assert(all.skip(j)[0] == all[j]);
                assert(state_views(ran@) =~= all.skip(j + 1));
                let mut st = st;
                match st.flow {
                    Flow::Break => {
                        st.flow = Flow::Normal;
                        let ghost r0 = state_views(result@);
                        result.push(st);
                        assert(state_views(result@) =~= r0.push(st@));
                    },
                    Flow::Raised => {
                        let ghost r0 = state_views(result@);
                        result.push(st);
                        assert(state_views(result@) =~= r0.push(st@));
                    },
                    _ => {
                        st.flow = Flow::Normal;
                        let mut again = single(st);
                        apply_effects_exec(&mut again, &test_effects);
                        assert(state_views(again@) =~= seq![
                            apply_effects(with_flow(all[j], Flow::Normal), walrus_effects(*test)),
                        ]);
                        let (_, exited) = branch_states_exec(test, again);
                        let more = suite_exec(orelse, exited, stub);
                        append_states(&mut result, more);
                    },
                }
                truncate_states(&mut result);
                proof {
                    j = j + 1;
                }
            }
            assert(j == all.len());
            result
        },
        _ => states,
    }
}

/// An `if` statement from its `k`-th branch on; see [`if_chain`].
fn if_chain_exec(s: &Stmt, k: usize, states: Vec<FlowState>, stub: bool) -> (out: Vec<FlowState>)
    requires
        s is If,
        k <= s->If_clauses@.len() + 1,
    ensures
        state_views(out@) == if_chain(*s, k as int, state_views(states@), stub),
    decreases s, 1int, s->If_clauses@.len() + 1 - k,
{
    let ghost input = state_views(states@);
    match s {
        Stmt::If { test, body, clauses, .. } => {
            if k == 0 {
                proof {
                    assert(decreases_to!(*s => *body));
                    assert(decreases_to!(*body => body@));
                }
                let mut states = states;
                apply_effects_exec(&mut states, &walrus_effects_exec(test));
                let (matched, skipped) = branch_states_exec(test, states);
                let mut out = suite_exec(body, matched, stub);
                let ghost first = state_views(out@);
                let rest = if_chain_exec(s, 1, skipped, stub);
                let ghost second = state_views(rest@);
                append_states(&mut out, rest);
                truncate_states(&mut out);
                assert(state_views(out@) == truncated(first + second));
                assert(state_views(out@) == if_chain(*s, k as int, input, stub));
                out
            } else if k <= clauses.len() {
                let clause = &clauses[k - 1];
                proof {
                    assert(decreases_to!(*s => *clauses));
                    assert(decreases_to!(*clauses => clauses@));
                    assert(decreases_to!(clauses@ => clauses@[k - 1]));
                    assert(decreases_to!(*clause => clause.body));
                    assert(decreases_to!(clause.body => clause.body@));
                }
                match &clause.test {
                    Some(t) => {
                        let mut states = states;
                        apply_effects_exec(&mut states, &walrus_effects_exec(t));
                        let (matched, skipped) = branch_states_exec(t, states);
                        let mut out = suite_exec(&clause.body, matched, stub);
                        let ghost sk = state_views(skipped@);
                        let rest = if k < clauses.len() {
                            if_chain_exec(s, k + 1, skipped, stub)
                        } else {
                            assert(if_chain(*s, k + 1, sk, stub) == sk);
                            skipped
                        };
                        assert(state_views(rest@) == if_chain(*s, k + 1, sk, stub));
                        let ghost first = state_views(out@);
                        let ghost second = state_views(rest@);
                        append_states(&mut out, rest);
                        truncate_states(&mut out);
                        assert(state_views(out@) == truncated(first + second));
                        assert(clauses@[k - 1] == *clause);
                        assert(state_views(out@) == if_chain(*s, k as int, input, stub));
                        out
                    },
                    None => {
                        assert(clauses@[k - 1] == *clause);
                        suite_exec(&clause.body, states, stub)
                    },
                }
            } else {
                states
            }
        },
        _ => states,
    }
}

/// A `match` statement; see [`match_states`].
fn match_exec(s: &Stmt, states: Vec<FlowState>, stub: bool) -> (out: Vec<FlowState>)
    requires
        s is Match,
    ensures
        state_views(out@) == match_states(*s, state_views(states@), stub),
    decreases s, 1int, 0int,
{
    match s {
        Stmt::Match { subject, cases, .. } => {
            let ghost input = state_views(states@);
            let mut remaining = states;
            apply_effects_exec(&mut remaining, &walrus_effects_exec(subject));
            let ghost goal = match_fold(*s, 0, seq![], state_views(remaining@), stub);
            assert(goal == match_states(*s, input, stub));
            let mut result: Vec<FlowState> = Vec::new();
            assert(state_views(result@) =~= Seq::<StateView>::empty());
            let mut k: usize = 0;
            let mut done = false;
            while !done && k < cases.len()
                invariant
                    0 <= k <= cases@.len(),
                    *s matches Stmt::Match { cases: cs, .. } && cs == cases,
                    done ==> state_views(result@) == goal,
                    !done ==> match_fold(*s, k as int, state_views(result@), state_views(remaining@), stub)
                        == goal,
                decreases cases@.len() - k, if done { 0int } else { 1int },
            {
                let case = &cases[k];
                let ghost r0 = state_views(result@);
                let ghost rem0 = state_views(remaining@);
                proof {
                    assert(decreases_to!(*s => *cases));
                    assert(decreases_to!(*cases => cases@));
                    assert(decreases_to!(cases@ => cases@[k as int]));
                    assert(decreases_to!(*case => case.body));
                    assert(decreases_to!(case.body => case.body@));
                }
                let mut bound = clone_states(&remaining);
                apply_effects_exec(&mut bound, &pattern_effects_exec(&case.pattern));
                let unmatched0 = if is_irrefutable_exec(&case.pattern) {
                    Vec::new()
                } else {
                    remaining
                };
                assert(state_views(unmatched0@) =~= (if is_irrefutable(case.pattern) {
                    Seq::<StateView>::empty()
                } else {
                    state_views(remaining@)
                }));
                let (matched, unmatched) = match &case.guard {
                    Some(g) => {
                        apply_effects_exec(&mut bound, &walrus_effects_exec(g));
                        let (accepted, rejected) = branch_states_exec(g, bound);
                        let mut unmatched = unmatched0;
                        append_states(&mut unmatched, rejected);
                        truncate_states(&mut unmatched);
                        (accepted, unmatched)
                    },
                    None => (bound, unmatched0),
                };
                let ran = suite_exec(&case.body, matched, stub);
                append_states(&mut result, ran);
                truncate_states(&mut result);
                if unmatched.len() == 0 {
                    let ghost next = state_views(result@);
                    let ghost um = state_views(unmatched@);
                    append_states(&mut result, unmatched);
                    truncate_states(&mut result);
                    assert(um.len() == 0);
                    assert(match_fold(*s, k as int, r0, rem0, stub) == truncated(next + um));
                    done = true;
                    remaining = Vec::new();
                } else {
                    remaining = unmatched;
                    k = k + 1;
                }
            }
            if !done {
                append_states(&mut result, remaining);
                truncate_states(&mut result);
            }
            result
        },
        _ => states,
    }
}

pub open spec fn inputs_views(inputs: Seq<Vec<FlowState>>) -> Seq<Seq<StateView>> {
    inputs.map_values(|v: Vec<FlowState>| state_views(v@))
}

proof fn lemma_select_handler_index(handlers: Seq<ExceptHandler>, st: StateView, k: int)
    ensures
        select_handler(handlers, st, k).1 matches Some(i) ==> 0 <= i < handlers.len(),
    decreases handlers.len() - k,
{
    if 0 <= k < handlers.len() {
        let h = handlers[k];
        let evaluated = match h.type_ {
            Some(t) => apply_effects(st, walrus_effects(*t)),
            None => st,
        };
        lemma_select_handler_index(handlers, evaluated, k + 1);
    }
}

/// The handler a raised path runs, trying handlers from the `k`-th on; see
/// [`select_handler`].
fn select_handler_exec(handlers: &Vec<ExceptHandler>, st: FlowState, k: usize) -> (r: (FlowState, Option<usize>))
    requires
        k <= handlers@.len(),
    ensures
        match r.1 {
            Some(i) => select_handler(handlers@, st@, k as int) == (r.0@, Some(i as int)),
            None => select_handler(handlers@, st@, k as int) == (r.0@, None::<int>),
        },
    decreases handlers@.len() - k,
{
    if k < handlers.len() {
        let h = &handlers[k];
        let mut st = st;
        match &h.type_ {
            Some(t) => apply_effects_state(&mut st, &walrus_effects_exec(t)),
            None => {},
        }
        if does_handler_catch_exec(&h.type_, &st.exception) {
            (st, Some(k))
        } else {
            select_handler_exec(handlers, st, k + 1)
        }
    } else {
        (st, None)
    }
}

/// The raised paths sorted into each handler's inputs and the uncaught ones; see
/// [`select_fold`].
fn select_exec(handlers: &Vec<ExceptHandler>, raised: Vec<FlowState>) -> (r: (Vec<Vec<FlowState>>, Vec<FlowState>))
    ensures
        r.0@.len() == handlers@.len(),
        (inputs_views(r.0@), state_views(r.1@)) == select_fold(
            handlers@,
            state_views(raised@),
            0,
            Seq::new(handlers@.len(), |i: int| Seq::<StateView>::empty()),
            seq![],
        ),
{
    let ghost all = state_views(raised@);
    let mut inputs: Vec<Vec<FlowState>> = Vec::new();
    let mut i: usize = 0;
    while i < handlers.len()
        invariant
            0 <= i <= handlers@.len(),
            inputs@.len() == i,
            forall|m: int| 0 <= m < i ==> (#[trigger] inputs@[m])@ == Seq::<FlowState>::empty(),
        decreases handlers@.len() - i,
    {
        inputs.push(Vec::new());
        i = i + 1;
    }
    assert forall|m: int| 0 <= m < inputs@.len() implies #[trigger] inputs_views(inputs@)[m]
        == Seq::<StateView>::empty() by {
        assert(state_views(inputs@[m]@) =~= Seq::<StateView>::empty());
    }
    assert(inputs_views(inputs@) =~= Seq::new(handlers@.len(), |i: int| Seq::<StateView>::empty()));
    let ghost goal = select_fold(handlers@, all, 0, inputs_views(inputs@), seq![]);
    let mut uncaught: Vec<FlowState> = Vec::new();
    assert(state_views(uncaught@) =~= Seq::<StateView>::empty());
    let mut raised = raised;
    let ghost mut j: int = 0;
    assert(all.skip(0) =~= all);
    while raised.len() > 0
        invariant
            0 <= j <= all.len(),
            state_views(raised@) == all.skip(j),
            inputs@.len() == handlers@.len(),
            select_fold(handlers@, all, j, inputs_views(inputs@), state_views(uncaught@)) == goal,
        decreases raised@.len(),
    {
        assert(state_views(raised@).len() == raised@.len());
        let ghost before = raised@;
        let st = raised.remove(0);
        assert(state_views(raised@) =~= state_views(before).remove(0));
        assert(state_views(before)[0] == st@);
        assert(all.skip(j)[0] == all[j]);
        assert(state_views(raised@) =~= all.skip(j + 1));
        proof {
            lemma_select_handler_index(handlers@, st@, 0);
        }
        let (chosen, selected) = select_handler_exec(handlers, st, 0);
        match selected {
            Some(index) => {
                let ghost iv = inputs_views(inputs@);
                let mut bucket = inputs.remove(index);
                let ghost b0 = state_views(bucket@);
                bucket.push(chosen);
                assert(state_views(bucket@) =~= b0.push(chosen@));
                inputs.insert(index, bucket);
                assert(inputs_views(inputs@) =~= iv.update(index as int, iv[index as int].push(
                    chosen@,
                )));
            },
            None => {
                let ghost u0 = state_views(uncaught@);
                uncaught.push(chosen);
                assert(state_views(uncaught@) =~= u0.push(chosen@));
            },
        }
        proof {
            j = j + 1;
        }
    }
    assert(j == all.len());
    (inputs, uncaught)
}

proof fn lemma_select_fold_len(
    handlers: Seq<ExceptHandler>,
    raised: Seq<StateView>,
    j: int,
    inputs: Seq<Seq<StateView>>,
    uncaught: Seq<StateView>,
)
    requires
        inputs.len() == handlers.len(),
    ensures
        select_fold(handlers, raised, j, inputs, uncaught).0.len() == handlers.len(),
    decreases raised.len() - j,
{
    if 0 <= j < raised.len() {
        let (st, selected) = select_handler(handlers, raised[j], 0);
        lemma_select_handler_index(handlers, raised[j], 0);
        match selected {
            Some(i) => lemma_select_fold_len(
                handlers,
                raised,
                j + 1,
                inputs.update(i, inputs[i].push(st)),
                uncaught,
            ),
            None => lemma_select_fold_len(handlers, raised, j + 1, inputs, uncaught.push(st)),
        }
    }
}

fn one_effect(effect: EffectOp) -> (out: Vec<EffectOp>)
    ensures
        effect_views(out@) == seq![effect@],
{
    let mut out: Vec<EffectOp> = Vec::new();
    out.push(effect);
    assert(effect_views(out@) =~= seq![effect@]);
    out
}

/// A `try` statement; see [`try_states`].
fn try_exec(s: &Stmt, states: Vec<FlowState>, stub: bool) -> (out: Vec<FlowState>)
    requires
        s is Try,
    ensures
        state_views(out@) == try_states(*s, state_views(states@), stub),
    decreases s, 1int, 0int,
{
    match s {
        Stmt::Try { body, handlers, orelse, finalbody, .. } => {
            proof {
                assert(decreases_to!(*s => *body));
                assert(decreases_to!(*body => body@));
                assert(decreases_to!(*s => *orelse));
                assert(decreases_to!(*orelse => orelse@));
                assert(decreases_to!(*s => *finalbody));
                assert(decreases_to!(*finalbody => finalbody@));
            }
            let mut attempted = suite_exec(body, states, stub);
            let ghost all = state_views(attempted@);
            let ghost goal = try_body_fold(*s, all, 0, seq![], seq![], stub);
            let mut result: Vec<FlowState> = Vec::new();
            let mut raised: Vec<FlowState> = Vec::new();
            assert(state_views(result@) =~= Seq::<StateView>::empty());
            assert(state_views(raised@) =~= Seq::<StateView>::empty());
            let ghost mut j: int = 0;
            assert(all.skip(0) =~= all);
            while attempted.len() > 0
                invariant
                    0 <= j <= all.len(),
                    state_views(attempted@) == all.skip(j),
                    *s matches Stmt::Try { orelse: o, .. } && o == orelse,
                    try_body_fold(*s, all, j, state_views(result@), state_views(raised@), stub)
                        == goal,
                decreases attempted@.len(),
            {
                assert(state_views(attempted@).len() == attempted@.len());
                let ghost before = attempted@;
                let st = attempted.remove(0);
                assert(state_views(attempted@) =~= state_views(before).remove(0));
                assert(state_views(before)[0] == st@);
                assert(all.skip(j)[0] == all[j]);
                assert(state_views(attempted@) =~= all.skip(j + 1));
                match st.flow {
                    Flow::Normal => {
                        let more = suite_exec(orelse, single(st), stub);
                        append_states(&mut result, more);
                    },
                    Flow::Raised => {
                        let ghost r0 = state_views(raised@);
                        raised.push(st);
                        assert(state_views(raised@) =~= r0.push(all[j]));
                    },
                    _ => {
                        let ghost r0 = state_views(result@);
                        result.push(st);
                        assert(state_views(result@) =~= r0.push(all[j]));
                    },
                }
                proof {
                    j = j + 1;
                }
            }
            assert(j == all.len());
            let (inputs, uncaught) = select_exec(handlers, raised);
            let ghost all_inputs = inputs_views(inputs@);
            let ghost hgoal = handlers_fold(*s, 0, all_inputs, state_views(result@), stub);
            let mut inputs = inputs;
            let mut handled = result;
            let mut k: usize = 0;
            assert(all_inputs.skip(0) =~= all_inputs);
            while k < handlers.len()
                invariant
                    0 <= k <= handlers@.len(),
                    all_inputs.len() == handlers@.len(),
                    inputs_views(inputs@) == all_inputs.skip(k as int),
                    *s matches Stmt::Try { handlers: hs, .. } && hs == handlers,
                    handlers_fold(*s, k as int, all_inputs, state_views(handled@), stub) == hgoal,
                decreases handlers@.len() - k,
            {
                let h = &handlers[k];
                proof {
                    assert(decreases_to!(*s => *handlers));
                    assert(decreases_to!(*handlers => handlers@));
                    assert(decreases_to!(handlers@ => handlers@[k as int]));
                    assert(decreases_to!(*h => h.body));
                    assert(decreases_to!(h.body => h.body@));
                    assert(inputs_views(inputs@).len() == inputs@.len());
                }
                let ghost iv = inputs@;
                let mut entering = inputs.remove(0);
                assert(inputs_views(inputs@) =~= inputs_views(iv).remove(0));
                assert(inputs_views(iv)[0] == state_views(entering@));
                assert(all_inputs.skip(k as int)[0] == all_inputs[k as int]);
                assert(inputs_views(inputs@) =~= all_inputs.skip(k + 1));
                reset_all_exec(&mut entering);
                match &h.name {
                    Some(n) => apply_effects_exec(
                        &mut entering,
                        &one_effect(EffectOp::Bind { name: to_chars(n.id.as_str()), range: n.range }),
                    ),
                    None => {},
                }
                let mut ran = suite_exec(&h.body, entering, stub);
                match &h.name {
                    Some(n) => apply_effects_exec(
                        &mut ran,
                        &one_effect(EffectOp::Delete { name: to_chars(n.id.as_str()) }),
                    ),
                    None => {},
                }
                append_states(&mut handled, ran);
                truncate_states(&mut handled);
                k = k + 1;
            }
            proof {
                lemma_select_fold_len(
                    handlers@,
                    state_views(raised@),
                    0,
                    Seq::new(handlers@.len(), |i: int| Seq::<StateView>::empty()),
                    seq![],
                );
            }
            append_states(&mut handled, uncaught);
            truncate_states(&mut handled);
            if finalbody.len() == 0 {
                return handled;
            }
            let ghost hv = state_views(handled@);
            let ghost fgoal = finally_fold(*s, hv, 0, seq![], stub);
            let mut finished: Vec<FlowState> = Vec::new();
            assert(state_views(finished@) =~= Seq::<StateView>::empty());
            let ghost mut m: int = 0;
            assert(hv.skip(0) =~= hv);
            while handled.len() > 0
                invariant
                    0 <= m <= hv.len(),
                    state_views(handled@) == hv.skip(m),
                    *s matches Stmt::Try { finalbody: f, .. } && f == finalbody,
                    finally_fold(*s, hv, m, state_views(finished@), stub) == fgoal,
                decreases handled@.len(),
            {
                assert(state_views(handled@).len() == handled@.len());
                let ghost before = handled@;
                let st = handled.remove(0);
                assert(state_views(handled@) =~= state_views(before).remove(0));
                assert(state_views(before)[0] == st@);
                assert(hv.skip(m)[0] == hv[m]);
                assert(state_views(handled@) =~= hv.skip(m + 1));
                let prior = st.flow;
                let mut st = st;
                st.flow = Flow::Normal;
                let mut ran = suite_exec(finalbody, single(st), stub);
                restore_all_exec(&mut ran, prior);
                append_states(&mut finished, ran);
                truncate_states(&mut finished);
                proof {
                    m = m + 1;
                }
            }
            assert(m == hv.len());
            finished
        },
        _ => states,
    }
}

/// The paths at the end of a module; see [`module_states`].
pub fn module_states_exec(module: &Vec<Stmt>, stub: bool) -> (out: Vec<FlowState>)
    ensures
        state_views(out@) == module_states(module@, stub),
{
    let start = FlowState {
        history: Vec::new(),
        flow: Flow::Normal,
        exception: None,
        conditions: Vec::new(),
        type_checking: Vec::new(),
    };
    assert(start@.history =~= initial_state().history);
    assert(start@.conditions =~= initial_state().conditions);
    assert(start@.type_checking =~= initial_state().type_checking);
    assert(start@ == initial_state());
    suite_exec(module, single(start), stub)
}

fn first_bad_exec(states: &Vec<FlowState>) -> (r: Option<TextRange>)
    ensures
        r == first_bad_from(state_views(states@), 0, None),
{
    let ghost all = state_views(states@);
    let mut best: Option<TextRange> = None;
    let mut j: usize = 0;
    while j < states.len()
        invariant
            0 <= j <= states@.len(),
            all == state_views(states@),
            first_bad_from(all, j as int, best) == first_bad_from(all, 0, None),
        decreases states@.len() - j,
    {
        assert(all[j as int] == states@[j as int]@);
        if states[j].flow == Flow::Normal {
            match bad_path_range_exec(&states[j]) {
                Some(range) => {
                    let better = match best {
                        None => true,
                        Some(current) => range.start < current.start,
                    };
                    if better {
                        best = Some(range);
                    }
                },
                None => {},
            }
        }
        j = j + 1;
    }
    best
}

/// GR003 over a file's name and statements; see [`package_dunder_all`].
pub fn check_package_dunder_all(file_name: &Option<Vec<char>>, module: &Vec<Stmt>) -> (diagnostics: Vec<Diagnostic>)
    ensures
        diagnostic_views(diagnostics@) == package_dunder_all(chars_option(*file_name), module@),
{
    let mut diagnostics: Vec<Diagnostic> = Vec::new();
    match file_name {
        Some(name) => {
            let stub = chars_eq(name, &to_chars("__init__.pyi"));
            if chars_eq(name, &to_chars("__init__.py")) || stub {
                let states = module_states_exec(module, stub);
                match first_bad_exec(&states) {
                    Some(range) => {
                        diagnostics.push(
                            Diagnostic {
                                message: to_chars(
                                    "Package initializer with public bindings must define __all__ on every import path",
                                ),
                                range,
                                noqa_offset: None,
                            },
                        );
                        assert(diagnostic_views(diagnostics@) =~= package_dunder_all(
                            chars_option(*file_name),
                            module@,
                        ));
                    },
                    None => {
                        assert(diagnostic_views(diagnostics@) =~= Seq::<DiagnosticView>::empty());
                    },
                }
            } else {
                assert(diagnostic_views(diagnostics@) =~= Seq::<DiagnosticView>::empty());
            }
        },
        None => {
            assert(diagnostic_views(diagnostics@) =~= Seq::<DiagnosticView>::empty());
        },
    }
    diagnostics
}

/// GR003 reports at most one finding per file.
pub proof fn law_dunder_all_at_most_one(file_name: Option<Seq<char>>, module: Seq<Stmt>)
    ensures
        package_dunder_all(file_name, module).len() <= 1,
{
}

/// GR003 reports nothing for a file other than `__init__.py` or `__init__.pyi`.
pub proof fn law_dunder_all_only_initializers(file_name: Seq<char>, module: Seq<Stmt>)
    requires
        !is_package_initializer(file_name),
    ensures
        package_dunder_all(Some(file_name), module).len() == 0,
{
}

/// An empty package initializer binds nothing, so it needs no `__all__`.
pub proof fn law_dunder_all_empty_initializer(file_name: Seq<char>)
    ensures
        package_dunder_all(Some(file_name), seq![]).len() == 0,
{
    let stub = file_name == "__init__.pyi"@;
    assert(module_states(seq![], stub) == seq![initial_state()]);
    assert(replay(initial_state().history) == Some(Seq::<(Seq<char>, TextRange)>::empty()));
    assert(bad_path_range(initial_state()) is None);
    let states = seq![initial_state()];
    assert(first_bad_from(states, 1, None) is None);
    assert(first_bad_from(states, 0, None) is None);
}

/// A reported range always belongs to a completing path's public binding left without
/// `__all__`: the finding's range is some completing path's bad range.
pub proof fn law_dunder_all_finding_is_bad_path(file_name: Option<Seq<char>>, module: Seq<Stmt>)
    requires
        package_dunder_all(file_name, module).len() == 1,
    ensures
        exists|stub: bool, j: int|
            0 <= j < module_states(module, stub).len() && (#[trigger] module_states(module, stub)[j]).flow
                == Flow::Normal && bad_path_range(module_states(module, stub)[j]) == Some(
                package_dunder_all(file_name, module)[0].range,
            ),
{
    let name = file_name->0;
    let stub = name == "__init__.pyi"@;
    let states = module_states(module, stub);
    lemma_first_bad_from(states, 0, None);
}

proof fn lemma_first_bad_from(states: Seq<StateView>, j: int, best: Option<TextRange>)
    requires
        0 <= j,
    ensures
        first_bad_from(states, j, best) is Some ==> first_bad_from(states, j, best) == best
            || exists|m: int|
            j <= m < states.len() && (#[trigger] states[m]).flow == Flow::Normal && bad_path_range(
                states[m],
            ) == first_bad_from(states, j, best),
    decreases states.len() - j,
{
    if j < states.len() {
        let st = states[j];
        let next = if st.flow == Flow::Normal && bad_path_range(st) is Some && (best is None
            || bad_path_range(st)->0.start < best->0.start) {
            bad_path_range(st)
        } else {
            best
        };
        lemma_first_bad_from(states, j + 1, next);
    }
}

/// Branch analysis stays bounded: however many statements a suite holds and however they
/// branch, at most `MAX_STATES` paths leave it when at most that many enter it.
pub proof fn law_suite_keeps_bounded_states(stmts: Seq<Stmt>, i: int, states: Seq<StateView>, stub: bool)
    requires
        0 <= i,
        states.len() <= MAX_STATES,
    ensures
        suite_from(stmts, i, states, stub).len() <= MAX_STATES,
    decreases stmts.len() - i,
{
    if i < stmts.len() {
        let carried = states.filter(is_not_normal());
        let ran = stmt_states(stmts[i], states.filter(is_normal()), stub);
        law_suite_keeps_bounded_states(stmts, i + 1, truncated(carried + ran), stub);
    }
}

/// A module's analysis keeps at most `MAX_STATES` paths.
pub proof fn law_module_keeps_bounded_states(module: Seq<Stmt>, stub: bool)
    ensures
        module_states(module, stub).len() <= MAX_STATES,
{
    law_suite_keeps_bounded_states(module, 0, seq![initial_state()], stub);
}

proof fn lemma_for_fold_bounded(s: Stmt, ran: Seq<StateView>, j: int, result: Seq<StateView>, stub: bool)
    requires
        result.len() <= MAX_STATES,
    ensures
        for_fold(s, ran, j, result, stub).len() <= MAX_STATES,
    decreases ran.len() - j,
{
    if let Stmt::For { orelse, .. } = s {
        if 0 <= j < ran.len() {
            let st = ran[j];
            let next = match st.flow {
                Flow::Normal => result + suite_from(orelse@, 0, seq![with_flow(st, Flow::Normal)], stub),
                Flow::Continue => result + suite_from(orelse@, 0, seq![with_flow(st, Flow::Normal)], stub),
                Flow::Break => result.push(with_flow(st, Flow::Normal)),
                Flow::Raised => result.push(st),
            };
            lemma_for_fold_bounded(s, ran, j + 1, truncated(next), stub);
        }
    }
}

proof fn lemma_while_fold_bounded(s: Stmt, ran: Seq<StateView>, j: int, result: Seq<StateView>, stub: bool)
    requires
        result.len() <= MAX_STATES,
    ensures
        while_fold(s, ran, j, result, stub).len() <= MAX_STATES,
    decreases ran.len() - j,
{
    if let Stmt::While { test, orelse, .. } = s {
        if 0 <= j < ran.len() {
            let st = ran[j];
            let again = apply_effects(with_flow(st, Flow::Normal), walrus_effects(test));
            let next = match st.flow {
                Flow::Break => result.push(with_flow(st, Flow::Normal)),
                Flow::Raised => result.push(st),
                _ => result + suite_from(orelse@, 0, branch_states(test, seq![again]).1, stub),
            };
            lemma_while_fold_bounded(s, ran, j + 1, truncated(next), stub);
        }
    }
}

proof fn lemma_match_fold_bounded(
    s: Stmt,
    k: int,
    result: Seq<StateView>,
    remaining: Seq<StateView>,
    stub: bool,
)
    ensures
        match_fold(s, k, result, remaining, stub).len() <= MAX_STATES,
    decreases if s is Match {
        s->Match_cases@.len() - k
    } else {
        0
    },
{
    if let Stmt::Match { cases, .. } = s {
        if 0 <= k < cases@.len() {
            let case = cases@[k];
            let bound = apply_all(remaining, pattern_effects(case.pattern));
            let unmatched = if is_irrefutable(case.pattern) {
                seq![]
            } else {
                remaining
            };
            let (matched, unmatched) = match case.guard {
                Some(g) => {
                    let (accepted, rejected) = branch_states(g, apply_all(bound, walrus_effects(g)));
                    (accepted, truncated(unmatched + rejected))
                },
                None => (bound, unmatched),
            };
            let next = truncated(result + suite_from(case.body@, 0, matched, stub));
            if unmatched.len() != 0 {
                lemma_match_fold_bounded(s, k + 1, next, unmatched, stub);
            }
        }
    }
}

proof fn lemma_finally_fold_bounded(
    s: Stmt,
    states: Seq<StateView>,
    j: int,
    result: Seq<StateView>,
    stub: bool,
)
    requires
        result.len() <= MAX_STATES,
    ensures
        finally_fold(s, states, j, result, stub).len() <= MAX_STATES,
    decreases states.len() - j,
{
    if let Stmt::Try { finalbody, .. } = s {
        if 0 <= j < states.len() {
            let st = states[j];
            let ran = suite_from(finalbody@, 0, seq![with_flow(st, Flow::Normal)], stub);
            lemma_finally_fold_bounded(s, states, j + 1, truncated(result + restore_all(ran, st.flow)), stub);
        }
    }
}

/// One statement keeps the analysis bounded too: at most `MAX_STATES` paths leave any
/// statement, compound or not, that at most `MAX_STATES` paths enter.
pub proof fn law_statement_keeps_bounded_states(s: Stmt, states: Seq<StateView>, stub: bool)
    requires
        states.len() <= MAX_STATES,
    ensures
        stmt_states(s, states, stub).len() <= MAX_STATES,
{
    match s {
        Stmt::For { target, iter, body, orelse, .. } => {
            let evaluated = apply_all(states, walrus_effects(iter));
            let entered = apply_all(evaluated, target_effects(TargetMode::Assign, target));
            let ran = suite_from(body@, 0, entered, stub);
            law_suite_keeps_bounded_states(orelse@, 0, evaluated, stub);
            lemma_for_fold_bounded(s, ran, 0, suite_from(orelse@, 0, evaluated, stub), stub);
        },
        Stmt::While { test, body, orelse, .. } => {
            let (entered, skipped) = branch_states(test, apply_all(states, walrus_effects(test)));
            let ran = suite_from(body@, 0, entered, stub);
            law_suite_keeps_bounded_states(orelse@, 0, skipped, stub);
            lemma_while_fold_bounded(s, ran, 0, suite_from(orelse@, 0, skipped, stub), stub);
        },
        Stmt::With { items, body, .. } => {
            law_suite_keeps_bounded_states(body@, 0, apply_all(states, with_effects(items@)), stub);
        },
        Stmt::Match { subject, .. } => {
            lemma_match_fold_bounded(s, 0, seq![], apply_all(states, walrus_effects(subject)), stub);
        },
        Stmt::Try { body, handlers, finalbody, .. } => {
            let attempted = suite_from(body@, 0, states, stub);
            let (result, raised) = try_body_fold(s, attempted, 0, seq![], seq![], stub);
            let (inputs, uncaught) = select_fold(
                handlers@,
                raised,
                0,
                Seq::new(handlers@.len(), |i: int| Seq::<StateView>::empty()),
                seq![],
            );
            let handled = truncated(handlers_fold(s, 0, inputs, result, stub) + uncaught);
            if finalbody@.len() != 0 {
                lemma_finally_fold_bounded(s, handled, 0, seq![], stub);
            }
        },
        _ => {},
    }
}

} // verus!
