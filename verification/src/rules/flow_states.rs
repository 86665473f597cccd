//! The states of the module-level flow analysis behind GR003: for each import path, what it
//! bound, deleted and required in order, how it ends, and what it assumed of the conditions it
//! passed on the way.
use vstd::prelude::*;
use crate::syntax::CmpOp;
use crate::syntax::Expr;
use crate::syntax::TextRange;
use crate::syntax::UnaryOp;
use crate::text::chars_eq;
use crate::text::push_chars;
use crate::text::push_str;
use crate::text::slice_chars;
use crate::text::to_chars;

verus! {

/// At most this many paths are followed; later ones are dropped.
pub const MAX_STATES: usize = 32;

/// At most this many conditions are remembered on one path.
pub const MAX_CONDITIONS: usize = 32;

/// How a path leaves the statements analysed so far.
#[derive(Clone, Copy, Debug, PartialEq, Eq, Structural)]
pub enum Flow {
    Normal,
    Break,
    Continue,
    Raised,
}

/// The value an `is` test compares a name with.
#[derive(Clone, Copy, Debug, PartialEq, Eq, Structural)]
pub enum Singleton {
    NoneValue,
    TrueValue,
    FalseValue,
}

/// What a name bound from `typing` stands for.
#[derive(Clone, Copy, Debug, PartialEq, Eq, Structural)]
pub enum TypeCheckingBinding {
    /// The `typing` or `typing_extensions` module itself.
    Module,
    /// The `TYPE_CHECKING` flag.
    Flag,
}

/// A condition a path can remember: a name's truth, or its identity with a singleton.
pub struct ConditionKey {
    pub name: Vec<char>,
    pub identity: Option<Singleton>,
}

pub struct KeyView {
    pub name: Seq<char>,
    pub identity: Option<Singleton>,
}

impl View for ConditionKey {
    type V = KeyView;

    open spec fn view(&self) -> KeyView {
        KeyView { name: self.name@, identity: self.identity }
    }
}

/// A remembered condition and the value the path took for it.
pub struct Condition {
    pub key: ConditionKey,
    pub value: bool,
}

pub struct ConditionView {
    pub key: KeyView,
    pub value: bool,
}

impl View for Condition {
    type V = ConditionView;

    open spec fn view(&self) -> ConditionView {
        ConditionView { key: self.key@, value: self.value }
    }
}

/// A step of a path's history.
pub enum Operation {
    Bind { name: Vec<char>, range: TextRange },
    Delete { name: Vec<char> },
    Require { name: Vec<char> },
}

pub enum OperationView {
    Bind { name: Seq<char>, range: TextRange },
    Delete { name: Seq<char> },
    Require { name: Seq<char> },
}

impl View for Operation {
    type V = OperationView;

    open spec fn view(&self) -> OperationView {
        match self {
            Operation::Bind { name, range } => OperationView::Bind { name: name@, range: *range },
            Operation::Delete { name } => OperationView::Delete { name: name@ },
            Operation::Require { name } => OperationView::Require { name: name@ },
        }
    }
}

/// A name bound from `typing` on the path, and what it stands for.
pub struct TypeCheckingEntry {
    pub name: Vec<char>,
    pub kind: TypeCheckingBinding,
}

pub struct EntryView {
    pub name: Seq<char>,
    pub kind: TypeCheckingBinding,
}

impl View for TypeCheckingEntry {
    type V = EntryView;

    open spec fn view(&self) -> EntryView {
        EntryView { name: self.name@, kind: self.kind }
    }
}

/// One path through the module.
pub struct FlowState {
    pub history: Vec<Operation>,
    pub flow: Flow,
    pub exception: Option<Vec<char>>,
    pub conditions: Vec<Condition>,
    pub type_checking: Vec<TypeCheckingEntry>,
}

pub struct StateView {
    pub history: Seq<OperationView>,
    pub flow: Flow,
    pub exception: Option<Seq<char>>,
    pub conditions: Seq<ConditionView>,
    pub type_checking: Seq<EntryView>,
}

pub open spec fn chars_option(o: Option<Vec<char>>) -> Option<Seq<char>> {
    match o {
        Some(v) => Some(v@),
        None => None,
    }
}

impl View for FlowState {
    type V = StateView;

    open spec fn view(&self) -> StateView {
        StateView {
            history: operation_views(self.history@),
            flow: self.flow,
            exception: chars_option(self.exception),
            conditions: condition_views(self.conditions@),
            type_checking: entry_views(self.type_checking@),
        }
    }
}

pub open spec fn operation_views(s: Seq<Operation>) -> Seq<OperationView> {
    s.map_values(|o: Operation| o@)
}

pub open spec fn condition_views(s: Seq<Condition>) -> Seq<ConditionView> {
    s.map_values(|c: Condition| c@)
}

pub open spec fn entry_views(s: Seq<TypeCheckingEntry>) -> Seq<EntryView> {
    s.map_values(|e: TypeCheckingEntry| e@)
}

pub open spec fn state_views(states: Seq<FlowState>) -> Seq<StateView> {
    states.map_values(|s: FlowState| s@)
}

/// The path at the top of a module: nothing done, nothing assumed.
pub open spec fn initial_state() -> StateView {
    StateView {
        history: seq![],
        flow: Flow::Normal,
        exception: None,
        conditions: seq![],
        type_checking: seq![],
    }
}

/// The first `MAX_STATES` states.
pub open spec fn truncated(states: Seq<StateView>) -> Seq<StateView> {
    if states.len() <= MAX_STATES {
        states
    } else {
        states.take(MAX_STATES as int)
    }
}

/// A change a statement makes to every path that runs it.
pub enum Effect {
    Bind { name: Seq<char>, range: TextRange },
    Delete { name: Seq<char> },
    Require { name: Seq<char> },
    BindTypeChecking { name: Seq<char>, range: TextRange, kind: TypeCheckingBinding },
}

/// The path without what it remembered of `name`: rebinding or deleting a name invalidates
/// the conditions on it and what it stood for.
pub open spec fn forget(st: StateView, name: Seq<char>) -> StateView {
    StateView {
        conditions: st.conditions.filter(condition_not_on(name)),
        type_checking: st.type_checking.filter(entry_not_for(name)),
        ..st
    }
}

pub open spec fn condition_not_on(name: Seq<char>) -> spec_fn(ConditionView) -> bool {
    |c: ConditionView| c.key.name != name
}

pub open spec fn entry_not_for(name: Seq<char>) -> spec_fn(EntryView) -> bool {
    |e: EntryView| e.name != name
}

pub open spec fn binding_not_of(name: Seq<char>) -> spec_fn((Seq<char>, TextRange)) -> bool {
    |b: (Seq<char>, TextRange)| b.0 != name
}

pub open spec fn apply_effect(st: StateView, effect: Effect) -> StateView {
    match effect {
        Effect::Bind { name, range } => {
            let f = forget(st, name);
            StateView { history: f.history.push(OperationView::Bind { name, range }), ..f }
        },
        Effect::Delete { name } => {
            let f = forget(st, name);
            StateView { history: f.history.push(OperationView::Delete { name }), ..f }
        },
        Effect::Require { name } => StateView {
            history: st.history.push(OperationView::Require { name }),
            ..st
        },
        Effect::BindTypeChecking { name, range, kind } => {
            let f = forget(st, name);
            StateView {
                history: f.history.push(OperationView::Bind { name, range }),
                type_checking: f.type_checking.push(EntryView { name, kind }),
                ..f
            }
        },
    }
}

/// The path after the effects, first to last.
pub open spec fn apply_effects(st: StateView, effects: Seq<Effect>) -> StateView
    decreases effects.len(),
{
    if effects.len() == 0 {
        st
    } else {
        apply_effect(apply_effects(st, effects.drop_last()), effects.last())
    }
}

pub open spec fn apply_all(states: Seq<StateView>, effects: Seq<Effect>) -> Seq<StateView> {
    states.map_values(|st: StateView| apply_effects(st, effects))
}

/// A name bound on the path and the range it was first bound at.
pub open spec fn has_binding(bindings: Seq<(Seq<char>, TextRange)>, name: Seq<char>) -> bool {
    exists|i: int| 0 <= i < bindings.len() && (#[trigger] bindings[i]).0 == name
}

/// The names the path leaves bound, each with the range where it was bound, or `None` when
/// the path deletes or requires a name it does not hold, so it cannot complete.
pub open spec fn replay(history: Seq<OperationView>) -> Option<Seq<(Seq<char>, TextRange)>>
    decreases history.len(),
{
    if history.len() == 0 {
        Some(seq![])
    } else {
        match replay(history.drop_last()) {
            None => None,
            Some(bindings) => match history.last() {
                OperationView::Bind { name, range } => if has_binding(bindings, name) {
                    Some(bindings)
                } else {
                    Some(bindings.push((name, range)))
                },
                OperationView::Delete { name } => if has_binding(bindings, name) {
                    Some(bindings.filter(binding_not_of(name)))
                } else {
                    None
                },
                OperationView::Require { name } => if has_binding(bindings, name) {
                    Some(bindings)
                } else {
                    None
                },
            },
        }
    }
}

/// A name without a leading underscore.
pub open spec fn is_public(name: Seq<char>) -> bool {
    !(name.len() > 0 && name[0] == '_')
}

/// The first public binding with the smallest start.
pub open spec fn first_public(bindings: Seq<(Seq<char>, TextRange)>) -> Option<TextRange>
    decreases bindings.len(),
{
    if bindings.len() == 0 {
        None
    } else {
        let earlier = first_public(bindings.drop_last());
        let (name, range) = bindings.last();
        if is_public(name) && (earlier is None || range.start < earlier->0.start) {
            Some(range)
        } else {
            earlier
        }
    }
}

pub open spec fn dunder_all() -> Seq<char> {
    "__all__"@
}

/// Where a completing path leaves a public binding without `__all__`.
pub open spec fn bad_path_range(st: StateView) -> Option<TextRange> {
    match replay(st.history) {
        None => None,
        Some(bindings) => if has_binding(bindings, dunder_all()) {
            None
        } else {
            first_public(bindings)
        },
    }
}

/// How a test evaluates on a path.
#[derive(Clone, Copy, Debug, PartialEq, Eq, Structural)]
pub enum Truth {
    Always,
    Never,
    Unknown,
}

/// What a name stands for on the path, if it was bound from `typing`.
pub open spec fn lookup_type_checking(entries: Seq<EntryView>, name: Seq<char>) -> Option<
    TypeCheckingBinding,
>
    decreases entries.len(),
{
    if entries.len() == 0 {
        None
    } else if entries.last().name == name {
        Some(entries.last().kind)
    } else {
        lookup_type_checking(entries.drop_last(), name)
    }
}

pub open spec fn type_checking_name() -> Seq<char> {
    "TYPE_CHECKING"@
}

/// A literal truth value, a `TYPE_CHECKING` test (false at run time), or a negation of one.
pub open spec fn classify_condition(e: Expr, st: StateView) -> Truth
    decreases e,
{
    match e {
        Expr::BooleanLiteral { value, .. } => if value {
            Truth::Always
        } else {
            Truth::Never
        },
        Expr::Name { id, .. } => if id@ == type_checking_name() || lookup_type_checking(
            st.type_checking,
            id@,
        ) == Some(TypeCheckingBinding::Flag) {
            Truth::Never
        } else {
            Truth::Unknown
        },
        Expr::Attribute { value, attr, .. } => if attr.id@ == type_checking_name() && match *value {
            Expr::Name { id, .. } => lookup_type_checking(st.type_checking, id@) == Some(
                TypeCheckingBinding::Module,
            ),
            _ => false,
        } {
            Truth::Never
        } else {
            Truth::Unknown
        },
        Expr::UnaryOp { op, operand, .. } => if op == UnaryOp::Not {
            match classify_condition(*operand, st) {
                Truth::Always => Truth::Never,
                Truth::Never => Truth::Always,
                Truth::Unknown => Truth::Unknown,
            }
        } else {
            Truth::Unknown
        },
        _ => Truth::Unknown,
    }
}

/// `name is value` with a singleton literal on either side, the name tried on the left first.
pub open spec fn identity_key(left: Expr, right: Expr) -> Option<KeyView> {
    let pair: Option<(Seq<char>, Expr)> = match left {
        Expr::Name { id, .. } => Some((id@, right)),
        _ => match right {
            Expr::Name { id, .. } => Some((id@, left)),
            _ => None,
        },
    };
    match pair {
        None => None,
        Some((name, value)) => match value {
            Expr::BooleanLiteral { value: b, .. } => Some(
                KeyView { name, identity: Some(if b {
                    Singleton::TrueValue
                } else {
                    Singleton::FalseValue
                }) },
            ),
            Expr::NoneLiteral { .. } => Some(KeyView { name, identity: Some(Singleton::NoneValue) }),
            _ => None,
        },
    }
}

/// The condition a test decides, with the value it takes when the test passes.
pub open spec fn condition_key(e: Expr) -> Option<(KeyView, bool)>
    decreases e,
{
    match e {
        Expr::Name { id, .. } => if id@ != type_checking_name() {
            Some((KeyView { name: id@, identity: None }, true))
        } else {
            None
        },
        Expr::UnaryOp { op, operand, .. } => if op == UnaryOp::Not {
            match condition_key(*operand) {
                Some((key, polarity)) => Some((key, !polarity)),
                None => None,
            }
        } else {
            None
        },
        Expr::Compare { left, ops, comparators, .. } => if ops@.len() == 1 && comparators@.len()
            == 1 && (ops@[0] == CmpOp::Is || ops@[0] == CmpOp::IsNot) {
            match identity_key(*left, comparators@[0]) {
                Some(key) => Some((key, ops@[0] == CmpOp::Is)),
                None => None,
            }
        } else {
            None
        },
        _ => None,
    }
}

/// The value the path took for the condition, if it remembers it.
pub open spec fn find_condition(conditions: Seq<ConditionView>, key: KeyView) -> Option<bool>
    decreases conditions.len(),
{
    if conditions.len() == 0 {
        None
    } else {
        match find_condition(conditions.drop_last(), key) {
            Some(v) => Some(v),
            None => if conditions.last().key == key {
                Some(conditions.last().value)
            } else {
                None
            },
        }
    }
}

pub open spec fn with_condition(st: StateView, key: KeyView, value: bool) -> StateView {
    StateView { conditions: st.conditions.push(ConditionView { key, value }), ..st }
}

/// The paths that pass a test and those that fail it, before truncation. A path with an
/// unknown outcome follows both branches, remembering the condition on each; one that
/// already remembers as many conditions as it may is dropped.
pub open spec fn branch_fold(e: Expr, states: Seq<StateView>) -> (Seq<StateView>, Seq<StateView>)
    decreases states.len(),
{
    if states.len() == 0 {
        (seq![], seq![])
    } else {
        let (matched, skipped) = branch_fold(e, states.drop_last());
        let st = states.last();
        match classify_condition(e, st) {
            Truth::Always => (matched.push(st), skipped),
            Truth::Never => (matched, skipped.push(st)),
            Truth::Unknown => match condition_key(e) {
                None => (matched.push(st), skipped.push(st)),
                Some((key, polarity)) => match find_condition(st.conditions, key) {
                    Some(value) => if value == polarity {
                        (matched.push(st), skipped)
                    } else {
                        (matched, skipped.push(st))
                    },
                    None => if st.conditions.len() == MAX_CONDITIONS {
                        (matched, skipped)
                    } else {
                        (
                            matched.push(with_condition(st, key, polarity)),
                            skipped.push(with_condition(st, key, !polarity)),
                        )
                    },
                },
            },
        }
    }
}

pub open spec fn branch_states(e: Expr, states: Seq<StateView>) -> (Seq<StateView>, Seq<StateView>) {
    let (matched, skipped) = branch_fold(e, states);
    (truncated(matched), truncated(skipped))
}

/// The dotted name of a class reference: a name or an attribute chain on one.
pub open spec fn class_name(e: Expr) -> Option<Seq<char>>
    decreases e,
{
    match e {
        Expr::Name { id, .. } => Some(id@),
        Expr::Attribute { value, attr, .. } => match class_name(*value) {
            Some(v) => Some(v + "."@ + attr.id@),
            None => None,
        },
        _ => None,
    }
}

/// The class a `raise` names, called or not.
pub open spec fn raised_name(e: Expr) -> Option<Seq<char>> {
    match e {
        Expr::Call { func, .. } => class_name(*func),
        _ => class_name(e),
    }
}

/// The handler type names the exception: by name, by dotted name, through a walrus, or as an
/// element of a tuple.
pub open spec fn handler_catches(handler: Expr, exception: Seq<char>) -> bool
    decreases handler, 1int, 0int,
{
    match handler {
        Expr::Name { id, .. } => id@ == exception,
        Expr::Attribute { .. } => class_name(handler) == Some(exception),
        Expr::Named { value, .. } => handler_catches(*value, exception),
        Expr::Tuple { .. } => tuple_catches(handler, exception, 0),
        _ => false,
    }
}

pub open spec fn tuple_catches(tuple: Expr, exception: Seq<char>, i: int) -> bool
    decreases tuple, 0int, tuple->Tuple_elts@.len() - i,
{
    if tuple is Tuple && 0 <= i < tuple->Tuple_elts@.len() {
        proof {
            let elts = tuple->Tuple_elts;
            assert(decreases_to!(tuple => elts));
            assert(decreases_to!(elts => elts@));
            assert(decreases_to!(elts@ => elts@[i]));
        }
        handler_catches(tuple->Tuple_elts@[i], exception) || tuple_catches(tuple, exception, i + 1)
    } else {
        false
    }
}

/// A bare `except` catches everything; a typed one catches only a known exception it names.
pub open spec fn does_handler_catch(handler: Option<Expr>, exception: Option<Seq<char>>) -> bool {
    match handler {
        None => true,
        Some(h) => match exception {
            None => false,
            Some(e) => handler_catches(h, e),
        },
    }
}

// Executable counterparts.

/// A change to apply to every path, as values.
pub enum EffectOp {
    Bind { name: Vec<char>, range: TextRange },
    Delete { name: Vec<char> },
    Require { name: Vec<char> },
    BindTypeChecking { name: Vec<char>, range: TextRange, kind: TypeCheckingBinding },
}

impl View for EffectOp {
    type V = Effect;

    open spec fn view(&self) -> Effect {
        match self {
            EffectOp::Bind { name, range } => Effect::Bind { name: name@, range: *range },
            EffectOp::Delete { name } => Effect::Delete { name: name@ },
            EffectOp::Require { name } => Effect::Require { name: name@ },
            EffectOp::BindTypeChecking { name, range, kind } => Effect::BindTypeChecking {
                name: name@,
                range: *range,
                kind: *kind,
            },
        }
    }
}

pub open spec fn effect_views(effects: Seq<EffectOp>) -> Seq<Effect> {
    effects.map_values(|e: EffectOp| e@)
}

pub fn copy_chars(v: &Vec<char>) -> (out: Vec<char>)
    ensures
        out@ == v@,
{
    let out = slice_chars(v, 0, v.len());
    assert(out@ =~= v@);
    out
}

fn clone_key(k: &ConditionKey) -> (out: ConditionKey)
    ensures
        out@ == k@,
{
    ConditionKey { name: copy_chars(&k.name), identity: k.identity }
}

fn clone_operation(o: &Operation) -> (out: Operation)
    ensures
        out@ == o@,
{
    match o {
        Operation::Bind { name, range } => Operation::Bind { name: copy_chars(name), range: *range },
        Operation::Delete { name } => Operation::Delete { name: copy_chars(name) },
        Operation::Require { name } => Operation::Require { name: copy_chars(name) },
    }
}

/// A copy of a path.
pub fn clone_state(st: &FlowState) -> (out: FlowState)
    ensures
        out@ == st@,
{
    let mut history: Vec<Operation> = Vec::new();
    let mut i: usize = 0;
    while i < st.history.len()
        invariant
            0 <= i <= st.history@.len(),
            operation_views(history@) == operation_views(st.history@.take(i as int)),
        decreases st.history@.len() - i,
    {
        let ghost before = operation_views(history@);
        history.push(clone_operation(&st.history[i]));
        assert(operation_views(history@) =~= before.push(st.history@[i as int]@));
        assert(st.history@.take(i + 1) =~= st.history@.take(i as int).push(st.history@[i as int]));
        assert(operation_views(history@) =~= operation_views(st.history@.take(i + 1)));
        i = i + 1;
    }
    let mut conditions: Vec<Condition> = Vec::new();
    let mut j: usize = 0;
    while j < st.conditions.len()
        invariant
            0 <= j <= st.conditions@.len(),
            condition_views(conditions@) == condition_views(st.conditions@.take(j as int)),
        decreases st.conditions@.len() - j,
    {
        let c = &st.conditions[j];
        let ghost before = condition_views(conditions@);
        conditions.push(Condition { key: clone_key(&c.key), value: c.value });
        assert(condition_views(conditions@) =~= before.push(st.conditions@[j as int]@));
        assert(st.conditions@.take(j + 1) =~= st.conditions@.take(j as int).push(
            st.conditions@[j as int],
        ));
        assert(condition_views(conditions@) =~= condition_views(st.conditions@.take(j + 1)));
        j = j + 1;
    }
    let mut entries: Vec<TypeCheckingEntry> = Vec::new();
    let mut k: usize = 0;
    while k < st.type_checking.len()
        invariant
            0 <= k <= st.type_checking@.len(),
            entry_views(entries@) == entry_views(st.type_checking@.take(
                k as int,
            )),
        decreases st.type_checking@.len() - k,
    {
        let e = &st.type_checking[k];
        let ghost before = entry_views(entries@);
        entries.push(TypeCheckingEntry { name: copy_chars(&e.name), kind: e.kind });
        assert(entry_views(entries@) =~= before.push(st.type_checking@[k as int]@));
        assert(st.type_checking@.take(k + 1) =~= st.type_checking@.take(k as int).push(
            st.type_checking@[k as int],
        ));
        assert(entry_views(entries@) =~= entry_views(st.type_checking@.take(
            k + 1,
        )));
        k = k + 1;
    }
    assert(st.history@.take(st.history@.len() as int) =~= st.history@);
    assert(st.conditions@.take(st.conditions@.len() as int) =~= st.conditions@);
    assert(st.type_checking@.take(st.type_checking@.len() as int) =~= st.type_checking@);
    let exception = match &st.exception {
        Some(e) => Some(copy_chars(e)),
        None => None,
    };
    let out = FlowState {
        history,
        flow: st.flow,
        exception,
        conditions,
        type_checking: entries,
    };
    assert(out@.history =~= st@.history);
    assert(out@.conditions =~= st@.conditions);
    assert(out@.type_checking =~= st@.type_checking);
    out
}

/// A copy of every path.
pub fn clone_states(states: &Vec<FlowState>) -> (out: Vec<FlowState>)
    ensures
        state_views(out@) == state_views(states@),
{
    let mut out: Vec<FlowState> = Vec::new();
    let mut i: usize = 0;
    while i < states.len()
        invariant
            0 <= i <= states@.len(),
            state_views(out@) == state_views(states@.take(i as int)),
        decreases states@.len() - i,
    {
        let ghost before = out@;
        out.push(clone_state(&states[i]));
        assert(states@.take(i + 1) =~= states@.take(i as int).push(states@[i as int]));
        assert(state_views(out@) =~= state_views(before).push(states@[i as int]@));
        assert(state_views(out@) =~= state_views(states@.take(i + 1)));
        i = i + 1;
    }
    assert(states@.take(states@.len() as int) =~= states@);
    out
}

/// Keeps the first `MAX_STATES` paths.
pub fn truncate_states(states: &mut Vec<FlowState>)
    ensures
        state_views(final(states)@) == truncated(state_views(old(states)@)),
{
    states.truncate(MAX_STATES);
    assert(state_views(states@) =~= truncated(state_views(old(states)@)));
}

pub proof fn lemma_filter_take_step<A>(s: Seq<A>, p: spec_fn(A) -> bool, k: int)
    requires
        0 <= k < s.len(),
    ensures
        s.take(k + 1).filter(p) == if p(s[k]) {
            s.take(k).filter(p).push(s[k])
        } else {
            s.take(k).filter(p)
        },
{
    reveal(Seq::filter);
    assert(s.take(k + 1).drop_last() =~= s.take(k));
    assert(s.take(k + 1).last() == s[k]);
}

/// Drops the conditions on `name`.
fn remove_conditions_on(conditions: &mut Vec<Condition>, name: &Vec<char>)
    ensures
        condition_views(final(conditions)@) == condition_views(old(conditions)@).filter(
            condition_not_on(name@),
        ),
{
    let ghost orig = condition_views(conditions@);
    let ghost p = condition_not_on(name@);
    let ghost mut k: int = 0;
    let mut i: usize = 0;
    assert(orig.skip(0) =~= orig);
    assert(orig.take(0).filter(p) =~= Seq::<ConditionView>::empty()) by {
        reveal(Seq::filter);
    }
    while i < conditions.len()
        invariant
            0 <= k <= orig.len(),
            p == condition_not_on(name@),
            condition_views(conditions@) == orig.take(k).filter(p) + orig.skip(k),
            i == orig.take(k).filter(p).len(),
        decreases conditions@.len() - i,
    {
        let ghost v = condition_views(conditions@);
        assert(v[i as int] == orig[k]);
        proof {
            lemma_filter_take_step(orig, p, k);
        }
        if chars_eq(&conditions[i].key.name, name) {
            let ghost before = conditions@;
            conditions.remove(i);
            assert(condition_views(conditions@) =~= condition_views(before).remove(i as int));
            assert(condition_views(conditions@) =~= orig.take(k + 1).filter(p)
                + orig.skip(k + 1));
        } else {
            assert(condition_views(conditions@) =~= orig.take(k + 1).filter(p)
                + orig.skip(k + 1));
            i = i + 1;
        }
        proof {
            k = k + 1;
        }
    }
    assert(orig.take(k) =~= orig);
    assert(condition_views(conditions@) =~= orig.filter(p));
}

/// Drops what `name` stood for.
fn remove_entries_for(entries: &mut Vec<TypeCheckingEntry>, name: &Vec<char>)
    ensures
        entry_views(final(entries)@) == entry_views(old(entries)@).filter(entry_not_for(name@)),
{
    let ghost orig = entry_views(entries@);
    let ghost p = entry_not_for(name@);
    let ghost mut k: int = 0;
    let mut i: usize = 0;
    assert(orig.skip(0) =~= orig);
    assert(orig.take(0).filter(p) =~= Seq::<EntryView>::empty()) by {
        reveal(Seq::filter);
    }
    while i < entries.len()
        invariant
            0 <= k <= orig.len(),
            p == entry_not_for(name@),
            entry_views(entries@) == orig.take(k).filter(p) + orig.skip(
                k,
            ),
            i == orig.take(k).filter(p).len(),
        decreases entries@.len() - i,
    {
        let ghost v = entry_views(entries@);
        assert(v[i as int] == orig[k]);
        proof {
            lemma_filter_take_step(orig, p, k);
        }
        if chars_eq(&entries[i].name, name) {
            let ghost before = entries@;
            entries.remove(i);
            assert(entry_views(entries@) =~= entry_views(before).remove(i as int));
            assert(entry_views(entries@) =~= orig.take(k + 1).filter(p)
                + orig.skip(k + 1));
        } else {
            assert(entry_views(entries@) =~= orig.take(k + 1).filter(p)
                + orig.skip(k + 1));
            i = i + 1;
        }
        proof {
            k = k + 1;
        }
    }
    assert(orig.take(k) =~= orig);
    assert(entry_views(entries@) =~= orig.filter(p));
}

/// Applies one change to a path.
pub fn apply_effect_exec(st: &mut FlowState, effect: &EffectOp)
    ensures
        final(st)@ == apply_effect(old(st)@, effect@),
{
    match effect {
        EffectOp::Bind { name, range } => {
            remove_conditions_on(&mut st.conditions, name);
            remove_entries_for(&mut st.type_checking, name);
            st.history.push(Operation::Bind { name: copy_chars(name), range: *range });
        },
        EffectOp::Delete { name } => {
            remove_conditions_on(&mut st.conditions, name);
            remove_entries_for(&mut st.type_checking, name);
            st.history.push(Operation::Delete { name: copy_chars(name) });
        },
        EffectOp::Require { name } => {
            st.history.push(Operation::Require { name: copy_chars(name) });
        },
        EffectOp::BindTypeChecking { name, range, kind } => {
            remove_conditions_on(&mut st.conditions, name);
            remove_entries_for(&mut st.type_checking, name);
            st.history.push(Operation::Bind { name: copy_chars(name), range: *range });
            st.type_checking.push(TypeCheckingEntry { name: copy_chars(name), kind: *kind });
        },
    }
    assert(st@.history =~= apply_effect(old(st)@, effect@).history);
    assert(st@.type_checking =~= apply_effect(old(st)@, effect@).type_checking);
}

/// Applies the changes, first to last, to every path.
pub fn apply_effects_exec(states: &mut Vec<FlowState>, effects: &Vec<EffectOp>)
    ensures
        state_views(final(states)@) == apply_all(state_views(old(states)@), effect_views(effects@)),
{
    let ghost orig = state_views(states@);
    let mut j: usize = 0;
    assert(apply_all(orig, effect_views(effects@).take(0)) =~= orig);
    while j < effects.len()
        invariant
            0 <= j <= effects@.len(),
            orig.len() == states@.len(),
            state_views(states@) == apply_all(orig, effect_views(effects@).take(j as int)),
        decreases effects@.len() - j,
    {
        let ghost before = state_views(states@);
        let mut i: usize = 0;
        while i < states.len()
            invariant
                0 <= i <= states@.len() == before.len(),
                j < effects@.len(),
                forall|m: int|
                    0 <= m < i ==> (#[trigger] states@[m])@ == apply_effect(before[m], effects@[j as int]@),
                forall|m: int| i <= m < states@.len() ==> (#[trigger] states@[m])@ == before[m],
            decreases states@.len() - i,
        {
            let mut st = states.remove(i);
            apply_effect_exec(&mut st, &effects[j]);
            states.insert(i, st);
            i = i + 1;
        }
        proof {
            let es = effect_views(effects@);
            assert(es.take(j + 1).drop_last() =~= es.take(j as int));
            assert(es.take(j + 1).last() == effects@[j as int]@);
            assert(state_views(states@) =~= apply_all(orig, es.take(j + 1)));
        }
        j = j + 1;
    }
    assert(effect_views(effects@).take(effects@.len() as int) =~= effect_views(effects@));
}

/// A name bound on a path and where it was bound.
pub struct NamedRange {
    pub name: Vec<char>,
    pub range: TextRange,
}

impl View for NamedRange {
    type V = (Seq<char>, TextRange);

    open spec fn view(&self) -> (Seq<char>, TextRange) {
        (self.name@, self.range)
    }
}

pub open spec fn named_views(s: Seq<NamedRange>) -> Seq<(Seq<char>, TextRange)> {
    s.map_values(|b: NamedRange| b@)
}

fn find_binding(bindings: &Vec<NamedRange>, name: &Vec<char>) -> (r: bool)
    ensures
        r == has_binding(named_views(bindings@), name@),
{
    let mut i: usize = 0;
    while i < bindings.len()
        invariant
            0 <= i <= bindings@.len(),
            forall|k: int| 0 <= k < i ==> (#[trigger] named_views(bindings@)[k]).0 != name@,
        decreases bindings@.len() - i,
    {
        if chars_eq(&bindings[i].name, name) {
            assert(named_views(bindings@)[i as int].0 == name@);
            return true;
        }
        i = i + 1;
    }
    false
}

fn remove_bindings_of(bindings: &mut Vec<NamedRange>, name: &Vec<char>)
    ensures
        named_views(final(bindings)@) == named_views(old(bindings)@).filter(binding_not_of(name@)),
{
    let ghost orig = named_views(bindings@);
    let ghost p = binding_not_of(name@);
    let ghost mut k: int = 0;
    let mut i: usize = 0;
    assert(orig.skip(0) =~= orig);
    assert(orig.take(0).filter(p) =~= Seq::<(Seq<char>, TextRange)>::empty()) by {
        reveal(Seq::filter);
    }
    while i < bindings.len()
        invariant
            0 <= k <= orig.len(),
            p == binding_not_of(name@),
            named_views(bindings@) == orig.take(k).filter(p) + orig.skip(k),
            i == orig.take(k).filter(p).len(),
        decreases bindings@.len() - i,
    {
        let ghost v = named_views(bindings@);
        assert(v[i as int] == orig[k]);
        proof {
            lemma_filter_take_step(orig, p, k);
        }
        if chars_eq(&bindings[i].name, name) {
            let ghost before = bindings@;
            bindings.remove(i);
            assert(named_views(bindings@) =~= named_views(before).remove(i as int));
            assert(named_views(bindings@) =~= orig.take(k + 1).filter(p) + orig.skip(k + 1));
        } else {
            assert(named_views(bindings@) =~= orig.take(k + 1).filter(p) + orig.skip(k + 1));
            i = i + 1;
        }
        proof {
            k = k + 1;
        }
    }
    assert(orig.take(k) =~= orig);
}

proof fn lemma_replay_stuck(history: Seq<OperationView>, k: int)
    requires
        0 <= k <= history.len(),
        replay(history.take(k)) is None,
    ensures
        replay(history) is None,
    decreases history.len(),
{
    if k == history.len() {
        assert(history.take(k) =~= history);
    } else {
        assert(history.drop_last().take(k) =~= history.take(k));
        lemma_replay_stuck(history.drop_last(), k);
    }
}

/// The bindings a path leaves; see [`replay`].
pub fn replay_exec(history: &Vec<Operation>) -> (r: Option<Vec<NamedRange>>)
    ensures
        match r {
            Some(b) => replay(operation_views(history@)) == Some(named_views(b@)),
            None => replay(operation_views(history@)) is None,
        },
{
    let ghost h = operation_views(history@);
    let mut bindings: Vec<NamedRange> = Vec::new();
    let mut k: usize = 0;
    assert(h.take(0) =~= Seq::<OperationView>::empty());
    assert(named_views(bindings@) =~= Seq::<(Seq<char>, TextRange)>::empty());
    while k < history.len()
        invariant
            0 <= k <= history@.len(),
            h == operation_views(history@),
            replay(h.take(k as int)) == Some(named_views(bindings@)),
        decreases history@.len() - k,
    {
        assert(h.take(k + 1).drop_last() =~= h.take(k as int));
        assert(h.take(k + 1).last() == history@[k as int]@);
        match &history[k] {
            Operation::Bind { name, range } => {
                if !find_binding(&bindings, name) {
                    let ghost before = bindings@;
                    bindings.push(NamedRange { name: copy_chars(name), range: *range });
                    assert(named_views(bindings@) =~= named_views(before).push((name@, *range)));
                }
            },
            Operation::Delete { name } => {
                if find_binding(&bindings, name) {
                    remove_bindings_of(&mut bindings, name);
                } else {
                    proof {
                        lemma_replay_stuck(h, k + 1);
                    }
                    return None;
                }
            },
            Operation::Require { name } => {
                if !find_binding(&bindings, name) {
                    proof {
                        lemma_replay_stuck(h, k + 1);
                    }
                    return None;
                }
            },
        }
        k = k + 1;
    }
    assert(h.take(history@.len() as int) =~= h);
    Some(bindings)
}

fn is_public_exec(name: &Vec<char>) -> (r: bool)
    ensures
        r == is_public(name@),
{
    !(name.len() > 0 && name[0] == '_')
}

/// The first public binding with the smallest start; see [`first_public`].
pub fn first_public_exec(bindings: &Vec<NamedRange>) -> (r: Option<TextRange>)
    ensures
        r == first_public(named_views(bindings@)),
{
    let ghost b = named_views(bindings@);
    let mut best: Option<TextRange> = None;
    let mut i: usize = 0;
    assert(b.take(0) =~= Seq::<(Seq<char>, TextRange)>::empty());
    while i < bindings.len()
        invariant
            0 <= i <= bindings@.len(),
            b == named_views(bindings@),
            best == first_public(b.take(i as int)),
        decreases bindings@.len() - i,
    {
        assert(b.take(i + 1).drop_last() =~= b.take(i as int));
        assert(b.take(i + 1).last() == bindings@[i as int]@);
        let range = bindings[i].range;
        if is_public_exec(&bindings[i].name) {
            match best {
                None => {
                    best = Some(range);
                },
                Some(current) => {
                    if range.start < current.start {
                        best = Some(range);
                    }
                },
            }
        }
        i = i + 1;
    }
    assert(b.take(bindings@.len() as int) =~= b);
    best
}

/// Where a completing path leaves a public binding without `__all__`; see
/// [`bad_path_range`].
pub fn bad_path_range_exec(st: &FlowState) -> (r: Option<TextRange>)
    ensures
        r == bad_path_range(st@),
{
    match replay_exec(&st.history) {
        None => None,
        Some(bindings) => {
            if find_binding(&bindings, &to_chars("__all__")) {
                None
            } else {
                first_public_exec(&bindings)
            }
        },
    }
}

fn lookup_type_checking_exec(entries: &Vec<TypeCheckingEntry>, name: &Vec<char>) -> (r: Option<
    TypeCheckingBinding,
>)
    ensures
        r == lookup_type_checking(entry_views(entries@), name@),
{
    let ghost e = entry_views(entries@);
    let mut i = entries.len();
    assert(e.take(i as int) =~= e);
    while i > 0
        invariant
            0 <= i <= entries@.len(),
            e == entry_views(entries@),
            lookup_type_checking(e, name@) == lookup_type_checking(e.take(i as int), name@),
        decreases i,
    {
        assert(e.take(i as int).drop_last() =~= e.take(i - 1));
        assert(e.take(i as int).last() == entries@[i - 1]@);
        if chars_eq(&entries[i - 1].name, name) {
            return Some(entries[i - 1].kind);
        }
        i = i - 1;
    }
    None
}

/// How a test evaluates on a path; see [`classify_condition`].
pub fn classify_condition_exec(e: &Expr, st: &FlowState) -> (r: Truth)
    ensures
        r == classify_condition(*e, st@),
    decreases e,
{
    match e {
        Expr::BooleanLiteral { value, .. } => if *value {
            Truth::Always
        } else {
            Truth::Never
        },
        Expr::Name { id, .. } => {
            let name = to_chars(id.as_str());
            if chars_eq(&name, &to_chars("TYPE_CHECKING")) {
                Truth::Never
            } else {
                match lookup_type_checking_exec(&st.type_checking, &name) {
                    Some(TypeCheckingBinding::Flag) => Truth::Never,
                    _ => Truth::Unknown,
                }
            }
        },
        Expr::Attribute { value, attr, .. } => {
            if chars_eq(&to_chars(attr.id.as_str()), &to_chars("TYPE_CHECKING")) {
                match &**value {
                    Expr::Name { id, .. } => match lookup_type_checking_exec(
                        &st.type_checking,
                        &to_chars(id.as_str()),
                    ) {
                        Some(TypeCheckingBinding::Module) => Truth::Never,
                        _ => Truth::Unknown,
                    },
                    _ => Truth::Unknown,
                }
            } else {
                Truth::Unknown
            }
        },
        Expr::UnaryOp { op, operand, .. } => match op {
            UnaryOp::Not => match classify_condition_exec(operand, st) {
                Truth::Always => Truth::Never,
                Truth::Never => Truth::Always,
                Truth::Unknown => Truth::Unknown,
            },
            _ => Truth::Unknown,
        },
        _ => Truth::Unknown,
    }
}

fn singleton_of(value: &Expr) -> (r: Option<Singleton>)
    ensures
        r == match *value {
            Expr::BooleanLiteral { value: b, .. } => Some(if b {
                Singleton::TrueValue
            } else {
                Singleton::FalseValue
            }),
            Expr::NoneLiteral { .. } => Some(Singleton::NoneValue),
            _ => None,
        },
{
    match value {
        Expr::BooleanLiteral { value: b, .. } => Some(if *b {
            Singleton::TrueValue
        } else {
            Singleton::FalseValue
        }),
        Expr::NoneLiteral { .. } => Some(Singleton::NoneValue),
        _ => None,
    }
}

fn identity_key_exec(left: &Expr, right: &Expr) -> (r: Option<ConditionKey>)
    ensures
        match r {
            Some(k) => identity_key(*left, *right) == Some(k@),
            None => identity_key(*left, *right) is None,
        },
{
    let (name, value) = match left {
        Expr::Name { id, .. } => (to_chars(id.as_str()), right),
        _ => match right {
            Expr::Name { id, .. } => (to_chars(id.as_str()), left),
            _ => {
                return None;
            },
        },
    };
    match singleton_of(value) {
        Some(identity) => Some(ConditionKey { name, identity: Some(identity) }),
        None => None,
    }
}

/// The condition a test decides; see [`condition_key`].
pub fn condition_key_exec(e: &Expr) -> (r: Option<(ConditionKey, bool)>)
    ensures
        match r {
            Some((k, polarity)) => condition_key(*e) == Some((k@, polarity)),
            None => condition_key(*e) is None,
        },
    decreases e,
{
    match e {
        Expr::Name { id, .. } => {
            let name = to_chars(id.as_str());
            if chars_eq(&name, &to_chars("TYPE_CHECKING")) {
                None
            } else {
                Some((ConditionKey { name, identity: None }, true))
            }
        },
        Expr::UnaryOp { op, operand, .. } => match op {
            UnaryOp::Not => match condition_key_exec(operand) {
                Some((key, polarity)) => Some((key, !polarity)),
                None => None,
            },
            _ => None,
        },
        Expr::Compare { left, ops, comparators, .. } => {
            if ops.len() == 1 && comparators.len() == 1 {
                let polarity = match ops[0] {
                    CmpOp::Is => true,
                    CmpOp::IsNot => false,
                    _ => {
                        return None;
                    },
                };
                match identity_key_exec(left, &comparators[0]) {
                    Some(key) => Some((key, polarity)),
                    None => None,
                }
            } else {
                None
            }
        },
        _ => None,
    }
}

fn same_key(a: &ConditionKey, b: &ConditionKey) -> (r: bool)
    ensures
        r == (a@ == b@),
{
    let same_identity = match (a.identity, b.identity) {
        (None, None) => true,
        (Some(x), Some(y)) => x == y,
        _ => false,
    };
    same_identity && chars_eq(&a.name, &b.name)
}

fn find_condition_exec(conditions: &Vec<Condition>, key: &ConditionKey) -> (r: Option<bool>)
    ensures
        r == find_condition(condition_views(conditions@), key@),
{
    let ghost c = condition_views(conditions@);
    let mut i: usize = 0;
    assert(c.take(0) =~= Seq::<ConditionView>::empty());
    while i < conditions.len()
        invariant
            0 <= i <= conditions@.len(),
            c == condition_views(conditions@),
            find_condition(c.take(i as int), key@) is None,
        decreases conditions@.len() - i,
    {
        assert(c.take(i + 1).drop_last() =~= c.take(i as int));
        assert(c.take(i + 1).last() == conditions@[i as int]@);
        if same_key(&conditions[i].key, key) {
            proof {
                assert(find_condition(c.take(i + 1), key@) == Some(conditions@[i as int].value));
                lemma_find_condition_prefix(c, i + 1);
            }
            return Some(conditions[i].value);
        }
        i = i + 1;
    }
    assert(c.take(conditions@.len() as int) =~= c);
    None
}

/// Once a prefix holds the key, the first match lies in that prefix.
proof fn lemma_find_condition_prefix(c: Seq<ConditionView>, k: int)
    requires
        0 <= k <= c.len(),
    ensures
        forall|key: KeyView|
            #[trigger] find_condition(c.take(k), key) is Some ==> find_condition(c, key)
                == find_condition(c.take(k), key),
    decreases c.len(),
{
    if k == c.len() {
        assert(c.take(k) =~= c);
    } else {
        assert(c.drop_last().take(k) =~= c.take(k));
        lemma_find_condition_prefix(c.drop_last(), k);
    }
}

fn with_condition_exec(st: &mut FlowState, key: ConditionKey, value: bool)
    ensures
        final(st)@ == with_condition(old(st)@, key@, value),
{
    st.conditions.push(Condition { key, value });
    assert(final(st)@.conditions =~= with_condition(old(st)@, key@, value).conditions);
}

/// The paths that pass a test and those that fail it; see [`branch_states`].
pub fn branch_states_exec(e: &Expr, states: Vec<FlowState>) -> (r: (Vec<FlowState>, Vec<FlowState>))
    ensures
        (state_views(r.0@), state_views(r.1@)) == branch_states(*e, state_views(states@)),
{
    let ghost orig = state_views(states@);
    let mut states = states;
    let mut matched: Vec<FlowState> = Vec::new();
    let mut skipped: Vec<FlowState> = Vec::new();
    let key = condition_key_exec(e);
    let ghost mut k: int = 0;
    assert(orig.take(0) =~= Seq::<StateView>::empty());
    assert(orig.skip(0) =~= orig);
    while states.len() > 0
        invariant
            0 <= k <= orig.len(),
            state_views(states@) == orig.skip(k),
            (state_views(matched@), state_views(skipped@)) == branch_fold(*e, orig.take(k)),
            match key {
                Some((kk, polarity)) => condition_key(*e) == Some((kk@, polarity)),
                None => condition_key(*e) is None,
            },
        decreases states@.len(),
    {
        assert(state_views(states@).len() == states@.len());
        assert(k < orig.len());
        let ghost before = states@;
        let st = states.remove(0);
        assert(state_views(states@) =~= state_views(before).remove(0));
        assert(orig.take(k + 1).drop_last() =~= orig.take(k));
        assert(state_views(before)[0] == st@);
        assert(orig.skip(k)[0] == orig[k]);
        assert(orig.take(k + 1).last() == st@);
        assert(state_views(states@) =~= orig.skip(k + 1));
        match classify_condition_exec(e, &st) {
            Truth::Always => {
                matched.push(st);
            },
            Truth::Never => {
                skipped.push(st);
            },
            Truth::Unknown => {
                match &key {
                    None => {
                        let copy = clone_state(&st);
                        matched.push(copy);
                        skipped.push(st);
                    },
                    Some((kk, polarity)) => {
                        match find_condition_exec(&st.conditions, kk) {
                            Some(value) => {
                                if value == *polarity {
                                    matched.push(st);
                                } else {
                                    skipped.push(st);
                                }
                            },
                            None => {
                                if st.conditions.len() != MAX_CONDITIONS {
                                    let mut accepted = clone_state(&st);
                                    with_condition_exec(&mut accepted, clone_key(kk), *polarity);
                                    let mut rejected = st;
                                    with_condition_exec(&mut rejected, clone_key(kk), !*polarity);
                                    matched.push(accepted);
                                    skipped.push(rejected);
                                }
                            },
                        }
                    },
                }
            },
        }
        assert(state_views(matched@) =~= branch_fold(*e, orig.take(k + 1)).0);
        assert(state_views(skipped@) =~= branch_fold(*e, orig.take(k + 1)).1);
        proof {
            k = k + 1;
        }
    }
    assert(orig.take(k) =~= orig);
    truncate_states(&mut matched);
    truncate_states(&mut skipped);
    (matched, skipped)
}

/// The dotted name of a class reference; see [`class_name`].
pub fn class_name_exec(e: &Expr) -> (r: Option<Vec<char>>)
    ensures
        chars_option(r) == class_name(*e),
    decreases e,
{
    match e {
        Expr::Name { id, .. } => Some(to_chars(id.as_str())),
        Expr::Attribute { value, attr, .. } => match class_name_exec(value) {
            Some(mut prefix) => {
                let ghost p = prefix@;
                push_str(&mut prefix, ".");
                push_str(&mut prefix, attr.id.as_str());
                assert(prefix@ =~= p + "."@ + attr.id@);
                Some(prefix)
            },
            None => None,
        },
        _ => None,
    }
}

/// The class a `raise` names; see [`raised_name`].
pub fn raised_name_exec(e: &Expr) -> (r: Option<Vec<char>>)
    ensures
        chars_option(r) == raised_name(*e),
{
    match e {
        Expr::Call { func, .. } => class_name_exec(func),
        _ => class_name_exec(e),
    }
}

/// Whether the handler type names the exception; see [`handler_catches`].
pub fn handler_catches_exec(handler: &Expr, exception: &Vec<char>) -> (r: bool)
    ensures
        r == handler_catches(*handler, exception@),
    decreases handler,
{
    match handler {
        Expr::Name { id, .. } => chars_eq(&to_chars(id.as_str()), exception),
        Expr::Attribute { .. } => match class_name_exec(handler) {
            Some(name) => chars_eq(&name, exception),
            None => false,
        },
        Expr::Named { value, .. } => handler_catches_exec(value, exception),
        Expr::Tuple { elts, .. } => {
            let mut i: usize = 0;
            while i < elts.len()
                invariant
                    0 <= i <= elts@.len(),
                    *handler matches Expr::Tuple { elts: es, .. } && es == elts,
                    handler_catches(*handler, exception@) == tuple_catches(
                        *handler,
                        exception@,
                        i as int,
                    ),
                decreases elts@.len() - i,
            {
                proof {
                    assert(decreases_to!(*handler => *elts));
                    assert(decreases_to!(*elts => elts@));
                    assert(decreases_to!(elts@ => elts@[i as int]));
                }
                if handler_catches_exec(&elts[i], exception) {
                    return true;
                }
                i = i + 1;
            }
            false
        },
        _ => false,
    }
}

/// Whether the handler catches the exception; see [`does_handler_catch`].
pub fn does_handler_catch_exec(handler: &Option<Box<Expr>>, exception: &Option<Vec<char>>) -> (r: bool)
    ensures
        r == does_handler_catch(
            match *handler {
                Some(h) => Some(*h),
                None => None,
            },
            chars_option(*exception),
        ),
{
    match handler {
        None => true,
        Some(h) => match exception {
            None => false,
            Some(e) => handler_catches_exec(h, e),
        },
    }
}

/// Appends `more` to `out`.
pub fn append_states(out: &mut Vec<FlowState>, more: Vec<FlowState>)
    ensures
        state_views(final(out)@) == state_views(old(out)@) + state_views(more@),
{
    let mut more = more;
    let ghost a = out@;
    let ghost b = more@;
    out.append(&mut more);
    assert(state_views(out@) =~= state_views(a) + state_views(b));
}

/// Applies the changes, first to last, to one path.
pub fn apply_effects_state(st: &mut FlowState, effects: &Vec<EffectOp>)
    ensures
        final(st)@ == apply_effects(old(st)@, effect_views(effects@)),
{
    let ghost start = st@;
    let mut j: usize = 0;
    assert(effect_views(effects@).take(0) =~= Seq::<Effect>::empty());
    while j < effects.len()
        invariant
            0 <= j <= effects@.len(),
            st@ == apply_effects(start, effect_views(effects@).take(j as int)),
        decreases effects@.len() - j,
    {
        apply_effect_exec(st, &effects[j]);
        let ghost es = effect_views(effects@);
        assert(es.take(j + 1).drop_last() =~= es.take(j as int));
        assert(es.take(j + 1).last() == effects@[j as int]@);
        j = j + 1;
    }
    assert(effect_views(effects@).take(effects@.len() as int) =~= effect_views(effects@));
}

/// The paths that are still running, and those that left the suite, each in order.
pub fn partition_states(states: Vec<FlowState>) -> (r: (Vec<FlowState>, Vec<FlowState>))
    ensures
        state_views(r.0@) == state_views(states@).filter(is_normal()),
        state_views(r.1@) == state_views(states@).filter(is_not_normal()),
{
    let ghost orig = state_views(states@);
    let ghost p = is_normal();
    let ghost q = is_not_normal();
    let mut states = states;
    let mut normal: Vec<FlowState> = Vec::new();
    let mut carried: Vec<FlowState> = Vec::new();
    let ghost mut k: int = 0;
    assert(orig.take(0) =~= Seq::<StateView>::empty());
    assert(orig.skip(0) =~= orig);
    assert(orig.take(0).filter(p) =~= Seq::<StateView>::empty()) by {
        reveal(Seq::filter);
    }
    assert(orig.take(0).filter(q) =~= Seq::<StateView>::empty()) by {
        reveal(Seq::filter);
    }
    while states.len() > 0
        invariant
            0 <= k <= orig.len(),
            state_views(states@) == orig.skip(k),
            p == is_normal(),
            q == is_not_normal(),
            state_views(normal@) == orig.take(k).filter(p),
            state_views(carried@) == orig.take(k).filter(q),
        decreases states@.len(),
    {
        assert(state_views(states@).len() == states@.len());
        let ghost before = states@;
        let st = states.remove(0);
        assert(state_views(states@) =~= state_views(before).remove(0));
        assert(state_views(before)[0] == st@);
        assert(orig.skip(k)[0] == orig[k]);
        assert(state_views(states@) =~= orig.skip(k + 1));
        proof {
            lemma_filter_take_step(orig, p, k);
            lemma_filter_take_step(orig, q, k);
        }
        let ghost n0 = state_views(normal@);
        let ghost c0 = state_views(carried@);
        if st.flow == Flow::Normal {
            normal.push(st);
            assert(state_views(normal@) =~= n0.push(orig[k]));
        } else {
            carried.push(st);
            assert(state_views(carried@) =~= c0.push(orig[k]));
        }
        proof {
            k = k + 1;
        }
    }
    assert(orig.take(k) =~= orig);
    (normal, carried)
}

/// The path with its flow set, and its exception too when `reset_exception` holds.
pub open spec fn flow_changed(
    st: StateView,
    flow: Flow,
    exception: Option<Seq<char>>,
    reset_exception: bool,
) -> StateView {
    StateView {
        flow,
        exception: if reset_exception {
            exception
        } else {
            st.exception
        },
        ..st
    }
}

pub open spec fn is_normal() -> spec_fn(StateView) -> bool {
    |st: StateView| st.flow == Flow::Normal
}

pub open spec fn is_not_normal() -> spec_fn(StateView) -> bool {
    |st: StateView| st.flow != Flow::Normal
}

/// Sets how every path leaves.
pub fn set_flows(states: &mut Vec<FlowState>, flow: Flow, exception: Option<Vec<char>>, reset_exception: bool)
    ensures
        final(states)@.len() == old(states)@.len(),
        forall|i: int|
            0 <= i < old(states)@.len() ==> (#[trigger] final(states)@[i])@ == flow_changed(
                old(states)@[i]@,
                flow,
                chars_option(exception),
                reset_exception,
            ),
{
    let ghost orig = states@;
    let mut i: usize = 0;
    while i < states.len()
        invariant
            0 <= i <= states@.len() == orig.len(),
            forall|m: int|
                0 <= m < i ==> (#[trigger] states@[m])@ == flow_changed(
                    orig[m]@,
                    flow,
                    chars_option(exception),
                    reset_exception,
                ),
            forall|m: int| i <= m < states@.len() ==> (#[trigger] states@[m]) == orig[m],
        decreases states@.len() - i,
    {
        let mut st = states.remove(i);
        st.flow = flow;
        if reset_exception {
            st.exception = match &exception {
                Some(e) => Some(copy_chars(e)),
                None => None,
            };
        }
        states.insert(i, st);
        i = i + 1;
    }
}

} // verus!
