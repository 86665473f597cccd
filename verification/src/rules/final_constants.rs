//! GR004 final-constants: uppercase names and `Final` annotations appear together.
use vstd::prelude::*;
use crate::rules::diagnostic_views;
use crate::rules::lemma_concat_keeps;
use crate::rules::Diagnostic;
use crate::rules::DiagnosticView;
use crate::rules::extend_diagnostics;
use crate::syntax::children;
use crate::syntax::children_exec;
use crate::syntax::lemma_children_decrease;
use crate::syntax::ClassDef;
use crate::syntax::Expr;
use crate::syntax::Stmt;
use crate::syntax::TextRange;
use crate::text::chars_eq;
use crate::text::is_ascii_digit;
use crate::text::is_ascii_uppercase;
use crate::text::push_chars;
use crate::text::push_str;
use crate::text::to_chars;

verus! {

/// Number of leading underscores.
pub open spec fn leading_underscores(s: Seq<char>) -> int
    decreases s.len(),
{
    if s.len() > 0 && s[0] == '_' {
        1 + leading_underscores(s.drop_first())
    } else {
        0
    }
}

/// After its leading underscores, the name starts with an uppercase ASCII letter and holds
/// only uppercase ASCII letters, digits and underscores.
pub open spec fn is_uppercase(name: Seq<char>) -> bool {
    let rest = name.skip(leading_underscores(name));
    &&& rest.len() > 0
    &&& is_ascii_uppercase(rest[0])
    &&& forall|k: int|
        1 <= k < rest.len() ==> is_ascii_uppercase(#[trigger] rest[k]) || is_ascii_digit(rest[k])
            || rest[k] == '_'
}

proof fn lemma_leading_underscores(s: Seq<char>)
    ensures
        0 <= leading_underscores(s) <= s.len(),
        leading_underscores(s) < s.len() ==> s[leading_underscores(s)] != '_',
    decreases s.len(),
{
    if s.len() > 0 && s[0] == '_' {
        lemma_leading_underscores(s.drop_first());
    }
}

pub fn is_uppercase_exec(name: &Vec<char>) -> (r: bool)
    ensures
        r == is_uppercase(name@),
{
    let mut i: usize = 0;
    assert(name@.skip(0) =~= name@);
    while i < name.len() && name[i] == '_'
        invariant
            0 <= i <= name@.len(),
            leading_underscores(name@) == i + leading_underscores(name@.skip(i as int)),
        decreases name@.len() - i,
    {
        assert(name@.skip(i as int).drop_first() =~= name@.skip(i + 1));
        i = i + 1;
    }
    proof {
        lemma_leading_underscores(name@.skip(i as int));
        if i < name@.len() {
            assert(name@.skip(i as int)[0] == name@[i as int]);
        }
        assert(leading_underscores(name@.skip(i as int)) == 0);
    }
    let ghost rest = name@.skip(i as int);
    if i >= name.len() || !('A' <= name[i] && name[i] <= 'Z') {
        return false;
    }
    let mut k = i + 1;
    while k < name.len()
        invariant
            i < k <= name@.len(),
            rest == name@.skip(i as int),
            i == leading_underscores(name@),
            forall|m: int|
                1 <= m < k - i ==> is_ascii_uppercase(#[trigger] rest[m]) || is_ascii_digit(rest[m])
                    || rest[m] == '_',
        decreases name@.len() - k,
    {
        let c = name[k];
        if !(('A' <= c && c <= 'Z') || ('0' <= c && c <= '9') || c == '_') {
            assert(rest[k - i] == c);
            return false;
        }
        k = k + 1;
    }
    true
}

/// The annotation names `expected`, directly, as an attribute, or as the subscripted base.
pub open spec fn is_annotation_named(annotation: Expr, expected: Seq<char>) -> bool
    decreases annotation,
{
    match annotation {
        Expr::Name { id, .. } => id@ == expected,
        Expr::Attribute { attr, .. } => attr.id@ == expected,
        Expr::Subscript { value, .. } => is_annotation_named(*value, expected),
        _ => false,
    }
}

pub fn is_annotation_named_exec(annotation: &Expr, expected: &Vec<char>) -> (r: bool)
    ensures
        r == is_annotation_named(*annotation, expected@),
    decreases annotation,
{
    match annotation {
        Expr::Name { id, .. } => chars_eq(&to_chars(id.as_str()), expected),
        Expr::Attribute { attr, .. } => chars_eq(&to_chars(attr.id.as_str()), expected),
        Expr::Subscript { value, .. } => is_annotation_named_exec(value, expected),
        _ => false,
    }
}

/// The bases that make a class an enumeration.
pub open spec fn is_enum_base_name(name: Seq<char>) -> bool {
    ||| name == "Enum"@
    ||| name == "IntEnum"@
    ||| name == "StrEnum"@
    ||| name == "ReprEnum"@
    ||| name == "Flag"@
    ||| name == "IntFlag"@
}

pub open spec fn is_enum_base(base: Expr) -> bool {
    match base {
        Expr::Name { id, .. } => is_enum_base_name(id@),
        Expr::Attribute { attr, .. } => is_enum_base_name(attr.id@),
        _ => false,
    }
}

/// The class lists an enumeration base among its positional bases.
pub open spec fn is_enum_class(c: ClassDef) -> bool {
    match c.arguments {
        Some(arguments) => exists|i: int|
            0 <= i < arguments.args@.len() && is_enum_base(#[trigger] arguments.args@[i]),
        None => false,
    }
}

fn is_enum_base_name_exec(name: &Vec<char>) -> (r: bool)
    ensures
        r == is_enum_base_name(name@),
{
    chars_eq(name, &to_chars("Enum")) || chars_eq(name, &to_chars("IntEnum")) || chars_eq(
        name,
        &to_chars("StrEnum"),
    ) || chars_eq(name, &to_chars("ReprEnum")) || chars_eq(name, &to_chars("Flag"))
        || chars_eq(name, &to_chars("IntFlag"))
}

pub fn is_enum_class_exec(c: &ClassDef) -> (r: bool)
    ensures
        r == is_enum_class(*c),
{
    match &c.arguments {
        None => false,
        Some(arguments) => {
            let mut i: usize = 0;
            while i < arguments.args.len()
                invariant
                    0 <= i <= arguments.args@.len(),
                    c.arguments == Some(*arguments),
                    forall|j: int| 0 <= j < i ==> !is_enum_base(#[trigger] arguments.args@[j]),
                decreases arguments.args@.len() - i,
            {
                let found = match &arguments.args[i] {
                    Expr::Name { id, .. } => is_enum_base_name_exec(&to_chars(id.as_str())),
                    Expr::Attribute { attr, .. } => is_enum_base_name_exec(
                        &to_chars(attr.id.as_str()),
                    ),
                    _ => false,
                };
                if found {
                    assert(is_enum_base(arguments.args@[i as int]));
                    assert(c.arguments->0 == *arguments);
                    assert(is_enum_base(c.arguments->0.args@[i as int]));
                    return true;
                }
                i = i + 1;
            }
            false
        },
    }
}

pub open spec fn missing_final_message(name: Seq<char>) -> Seq<char> {
    "Constant "@ + name + " must be annotated Final"@
}

pub open spec fn lowercase_final_message(name: Seq<char>) -> Seq<char> {
    "Final binding "@ + name + " must be named in UPPER_SNAKE_CASE"@
}

/// The finding on a simple-name binding with its annotation, if any: an uppercase name
/// without `Final`, or `Final` on a name that is not uppercase. `TypeAlias` annotations are
/// not constants.
pub open spec fn binding_diagnostics(name: Seq<char>, range: TextRange, annotation: Option<Expr>) -> Seq<
    DiagnosticView,
> {
    let is_alias = annotation matches Some(a) && is_annotation_named(a, "TypeAlias"@);
    let is_final = annotation matches Some(a) && is_annotation_named(a, "Final"@);
    let upper = is_uppercase(name);
    if is_alias {
        seq![]
    } else if upper && !is_final {
        seq![
            DiagnosticView {
                message: missing_final_message(name),
                range,
                noqa_offset: Some(range.start),
            },
        ]
    } else if is_final && !upper {
        seq![
            DiagnosticView {
                message: lowercase_final_message(name),
                range,
                noqa_offset: Some(range.start),
            },
        ]
    } else {
        seq![]
    }
}

/// The findings of the binding a statement makes itself, outside an enumeration body.
pub open spec fn own_bindings(s: Stmt, enum_body: bool) -> Seq<DiagnosticView> {
    if enum_body {
        seq![]
    } else {
        match s {
            Stmt::Assign { targets, .. } => if targets@.len() == 1 {
                match targets@[0] {
                    Expr::Name { id, range, .. } => binding_diagnostics(id@, range, None),
                    _ => seq![],
                }
            } else {
                seq![]
            },
            Stmt::AnnAssign { target, annotation, .. } => match target {
                Expr::Name { id, range, .. } => binding_diagnostics(id@, range, Some(annotation)),
                _ => seq![],
            },
            _ => seq![],
        }
    }
}

/// Whether the suites nested in `s` are an enumeration body.
pub open spec fn nested_enum_body(s: Stmt, enum_body: bool) -> bool {
    match s {
        Stmt::FunctionDef(_) => false,
        Stmt::ClassDef(c) => is_enum_class(c),
        _ => enum_body,
    }
}

/// The findings in `s` and everything nested in it.
pub open spec fn final_constants_stmt(s: Stmt, enum_body: bool) -> Seq<DiagnosticView>
    decreases s, 1int, 0int,
{
    own_bindings(s, enum_body) + final_constants_children(
        s,
        nested_enum_body(s, enum_body),
        children(s).len() as int,
    )
}

pub open spec fn final_constants_children(s: Stmt, enum_body: bool, j: int) -> Seq<
    DiagnosticView,
>
    decreases s, 0int, j,
{
    if j <= 0 || j > children(s).len() {
        seq![]
    } else {
        proof {
            lemma_children_decrease(s, j - 1);
        }
        final_constants_children(s, enum_body, j - 1) + final_constants_stmt(
            children(s)[j - 1],
            enum_body,
        )
    }
}

pub open spec fn final_constants_suite(stmts: Seq<Stmt>) -> Seq<DiagnosticView>
    decreases stmts.len(),
{
    if stmts.len() == 0 {
        seq![]
    } else {
        final_constants_suite(stmts.drop_last()) + final_constants_stmt(stmts.last(), false)
    }
}

/// GR004 over a module.
pub open spec fn final_constants(module: Seq<Stmt>) -> Seq<DiagnosticView> {
    final_constants_suite(module)
}

fn check_binding(
    id: &String,
    range: TextRange,
    annotation: Option<&Expr>,
    out: &mut Vec<Diagnostic>,
)
    ensures
        diagnostic_views(final(out)@) == diagnostic_views(old(out)@) + binding_diagnostics(
            id@,
            range,
            match annotation {
                Some(a) => Some(*a),
                None => None,
            },
        ),
{
    let ghost spec_annotation = match annotation {
        Some(a) => Some(*a),
        None => None,
    };
    let ghost before = diagnostic_views(out@);
    let alias_name = to_chars("TypeAlias");
    let final_name = to_chars("Final");
    let (is_alias, is_final) = match annotation {
        Some(a) => (is_annotation_named_exec(a, &alias_name), is_annotation_named_exec(a, &final_name)),
        None => (false, false),
    };
    if is_alias {
        return ;
    }
    let name = to_chars(id.as_str());
    let upper = is_uppercase_exec(&name);
    if upper && !is_final {
        let mut message: Vec<char> = Vec::new();
        push_str(&mut message, "Constant ");
        push_chars(&mut message, &name);
        push_str(&mut message, " must be annotated Final");
        out.push(Diagnostic { message, range, noqa_offset: Some(range.start) });
        assert(diagnostic_views(out@) =~= before + binding_diagnostics(id@, range, spec_annotation));
    } else if is_final && !upper {
        let mut message: Vec<char> = Vec::new();
        push_str(&mut message, "Final binding ");
        push_chars(&mut message, &name);
        push_str(&mut message, " must be named in UPPER_SNAKE_CASE");
        out.push(Diagnostic { message, range, noqa_offset: Some(range.start) });
        assert(diagnostic_views(out@) =~= before + binding_diagnostics(id@, range, spec_annotation));
    } else {
        assert(diagnostic_views(out@) =~= before + binding_diagnostics(id@, range, spec_annotation));
    }
}

fn check_stmt(s: &Stmt, enum_body: bool, out: &mut Vec<Diagnostic>)
    ensures
        diagnostic_views(final(out)@) == diagnostic_views(old(out)@) + final_constants_stmt(
            *s,
            enum_body,
        ),
    decreases s,
{
    let ghost start = diagnostic_views(out@);
    if !enum_body {
        match s {
            Stmt::Assign { targets, .. } => {
                if targets.len() == 1 {
                    match &targets[0] {
                        Expr::Name { id, range, .. } => check_binding(id, *range, None, out),
                        _ => {},
                    }
                }
            },
            Stmt::AnnAssign { target, annotation, .. } => {
                match target {
                    Expr::Name { id, range, .. } => check_binding(id, *range, Some(annotation), out),
                    _ => {},
                }
            },
            _ => {},
        }
    }
    assert(diagnostic_views(out@) =~= start + own_bindings(*s, enum_body));
    let nested = match s {
        Stmt::FunctionDef(_) => false,
        Stmt::ClassDef(c) => is_enum_class_exec(c),
        _ => enum_body,
    };
    let ghost middle = diagnostic_views(out@);
    let kids = children_exec(s);
    let mut j: usize = 0;
    while j < kids.len()
        invariant
            0 <= j <= kids@.len() == children(*s).len(),
            forall|m: int| 0 <= m < kids@.len() ==> *(#[trigger] kids@[m]) == children(*s)[m],
            nested == nested_enum_body(*s, enum_body),
            diagnostic_views(out@) == middle + final_constants_children(*s, nested, j as int),
        decreases kids@.len() - j,
    {
        proof {
            lemma_children_decrease(*s, j as int);
        }
        check_stmt(kids[j], nested, out);
        j = j + 1;
    }
}

/// GR004 over a module; see [`final_constants`].
pub fn check_final_constants(module: &Vec<Stmt>) -> (diagnostics: Vec<Diagnostic>)
    ensures
        diagnostic_views(diagnostics@) == final_constants(module@),
{
    let mut diagnostics: Vec<Diagnostic> = Vec::new();
    let mut i: usize = 0;
    while i < module.len()
        invariant
            0 <= i <= module@.len(),
            diagnostic_views(diagnostics@) == final_constants_suite(module@.take(i as int)),
        decreases module@.len() - i,
    {
        check_stmt(&module[i], false, &mut diagnostics);
        assert(module@.take(i + 1).drop_last() =~= module@.take(i as int));
        i = i + 1;
    }
    assert(module@.take(module@.len() as int) =~= module@);
    diagnostics
}

proof fn lemma_suite_keeps(stmts: Seq<Stmt>, i: int, d: DiagnosticView)
    requires
        0 <= i < stmts.len(),
        final_constants_stmt(stmts[i], false).contains(d),
    ensures
        final_constants_suite(stmts).contains(d),
    decreases stmts.len(),
{
    let rest = stmts.drop_last();
    if i < stmts.len() - 1 {
        assert(rest[i] == stmts[i]);
        lemma_suite_keeps(rest, i, d);
    }
    lemma_concat_keeps(final_constants_suite(rest), final_constants_stmt(stmts.last(), false), d);
}

/// A module-level binding `name: Final = ...` (with `Final` spelled bare, as an attribute,
/// or subscripted) whose name starts with a lowercase letter is reported on the name: a
/// `Final` binding must be named in UPPER_SNAKE_CASE.
pub proof fn law_lowercase_final_binding_is_reported(module: Seq<Stmt>, i: int)
    requires
        0 <= i < module.len(),
        module[i] matches Stmt::AnnAssign { target, annotation, .. } && (target matches Expr::Name {
            id,
            ..
        } && id@.len() > 0 && 'a' <= id@[0] <= 'z') && match annotation {
            Expr::Name { id, .. } => id@ == "Final"@,
            Expr::Attribute { attr, .. } => attr.id@ == "Final"@,
            Expr::Subscript { value, .. } => match *value {
                Expr::Name { id, .. } => id@ == "Final"@,
                Expr::Attribute { attr, .. } => attr.id@ == "Final"@,
                _ => false,
            },
            _ => false,
        },
    ensures
        match module[i] {
            Stmt::AnnAssign { target: Expr::Name { id, range, .. }, .. } => final_constants(
                module,
            ).contains(
                DiagnosticView {
                    message: "Final binding "@ + id@ + " must be named in UPPER_SNAKE_CASE"@,
                    range,
                    noqa_offset: Some(range.start),
                },
            ),
            _ => false,
        },
{
    reveal_strlit("Final");
    reveal_strlit("TypeAlias");
    reveal_with_fuel(is_annotation_named, 2);
    assert("Final"@.len() == 5 && "TypeAlias"@.len() == 9);
    assert("Final"@ != "TypeAlias"@);
    let s = module[i];
    if let Stmt::AnnAssign { target: Expr::Name { id, range, .. }, annotation, .. } = s {
        let name = id@;
        assert(is_annotation_named(annotation, "Final"@));
        assert(!is_annotation_named(annotation, "TypeAlias"@));
        assert(leading_underscores(name) == 0);
        assert(name.skip(0) =~= name);
        assert(!is_uppercase(name));
        let d = DiagnosticView {
            message: lowercase_final_message(name),
            range,
            noqa_offset: Some(range.start),
        };
        assert(own_bindings(s, false) == seq![d]);
        assert(own_bindings(s, false)[0] == d);
        lemma_concat_keeps(
            own_bindings(s, false),
            final_constants_children(s, nested_enum_body(s, false), children(s).len() as int),
            d,
        );
        lemma_suite_keeps(module, i, d);
    }
}

/// A module-level assignment `NAME = ...` to a single name of uppercase letters, which
/// carries no `Final`, is reported on the name: a constant must be annotated `Final`.
pub proof fn law_unannotated_constant_is_reported(module: Seq<Stmt>, i: int)
    requires
        0 <= i < module.len(),
        module[i] matches Stmt::Assign { targets, .. } && targets@.len() == 1 && (targets@[0] matches Expr::Name {
            id,
            ..
        } && id@.len() > 0 && forall|k: int| 0 <= k < id@.len() ==> 'A' <= #[trigger] id@[k] <= 'Z'),
    ensures
        match module[i] {
            Stmt::Assign { targets, .. } => match targets@[0] {
                Expr::Name { id, range, .. } => final_constants(module).contains(
                    DiagnosticView {
                        message: "Constant "@ + id@ + " must be annotated Final"@,
                        range,
                        noqa_offset: Some(range.start),
                    },
                ),
                _ => false,
            },
            _ => false,
        },
{
    let s = module[i];
    if let Stmt::Assign { targets, .. } = s {
        if let Expr::Name { id, range, .. } = targets@[0] {
            let name = id@;
            assert(name[0] != '_');
            assert(leading_underscores(name) == 0);
            assert(name.skip(0) =~= name);
            assert(is_uppercase(name));
            let d = DiagnosticView {
                message: missing_final_message(name),
                range,
                noqa_offset: Some(range.start),
            };
            assert(own_bindings(s, false) == seq![d]);
            assert(own_bindings(s, false)[0] == d);
            lemma_concat_keeps(
                own_bindings(s, false),
                final_constants_children(s, nested_enum_body(s, false), children(s).len() as int),
                d,
            );
            lemma_suite_keeps(module, i, d);
        }
    }
}

} // verus!
