use gruff::check::check_source;
use gruff::check::Finding;
use gruff::check::Parsed;
use gruff::check::SourceFile;
use gruff::check::SyntaxError;
use gruff::syntax::ElifElseClause;
use gruff::syntax::ExceptHandler;
use gruff::syntax::Expr;
use gruff::syntax::ExprContext;
use gruff::syntax::FunctionDef;
use gruff::syntax::Identifier;
use gruff::syntax::Parameter;
use gruff::syntax::Parameters;
use gruff::syntax::Stmt;
use gruff::syntax::TextRange;
use gruff::syntax::Token;
use gruff::syntax::TokenKind;
use gruff::syntax::UnaryOp;

fn range(start: usize, end: usize) -> TextRange {
    TextRange { start, end }
}

fn identifier(id: &str, start: usize) -> Identifier {
    Identifier { id: id.to_string(), range: range(start, start + id.chars().count()) }
}

fn name(id: &str, start: usize, ctx: ExprContext) -> Expr {
    Expr::Name { id: id.to_string(), ctx, range: range(start, start + id.chars().count()) }
}

fn parameter(id: &str, start: usize, default: Option<Expr>) -> Parameter {
    Parameter { name: identifier(id, start), annotation: None, default: default.map(Box::new) }
}

fn parameters(args: Vec<Parameter>) -> Parameters {
    Parameters { posonlyargs: Vec::new(), args, vararg: None, kwonlyargs: Vec::new(), kwarg: None }
}

/// `def <name>(<args>):` on the first row with an indented `...` body at `body_start`.
fn function(def_name: &str, args: Vec<Parameter>, body_start: usize, end: usize) -> Stmt {
    Stmt::FunctionDef(FunctionDef {
        name: identifier(def_name, 4),
        is_async: false,
        decorators: Vec::new(),
        type_params: Vec::new(),
        parameters: parameters(args),
        returns: None,
        body: vec![Stmt::Expr {
            value: Expr::EllipsisLiteral { range: range(body_start, body_start + 3) },
            range: range(body_start, body_start + 3),
        }],
        range: range(0, end),
    })
}

fn token(kind: TokenKind, start: usize, end: usize) -> Token {
    Token { kind, range: range(start, end) }
}

/// Newline tokens at every line end of the text.
fn newlines(text: &str) -> Vec<Token> {
    text.chars()
        .enumerate()
        .filter(|(_, c)| *c == '\n')
        .map(|(i, _)| token(TokenKind::Newline, i, i + 1))
        .collect()
}

fn check(path: &str, text: &str, module: Vec<Stmt>, mut tokens: Vec<Token>) -> Vec<Finding> {
    tokens.sort_by_key(|t| t.range.start);
    let file = SourceFile::new(text.to_string(), Ok(Parsed { module, tokens }))
        .expect("the tokens lie within the text");
    check_source(&path.to_string(), &file)
}

fn text(chars: &[char]) -> String {
    chars.iter().collect()
}

#[test]
fn flags_an_implicit_convention_on_a_non_public_input() {
    let source = "def _load(path):\n    ...\n";
    let module = vec![function("_load", vec![parameter("path", 10, None)], 21, 24)];
    let findings = check("finding.py", source, module, newlines(source));
    assert_eq!(findings.len(), 1);
    let finding = &findings[0];
    assert_eq!(text(&finding.code), "GR001");
    assert_eq!(text(&finding.message), "Input `path` must be positional-only or keyword-only");
    assert_eq!((finding.location.row, finding.location.column), (1, 11));
    assert_eq!((finding.end_location.row, finding.end_location.column), (1, 15));
    assert_eq!(finding.noqa_row, Some(1));
    assert_eq!(text(&finding.source_line), "def _load(path):");
    assert_eq!(finding.path, "finding.py");
}

#[test]
fn flags_a_defaulted_non_public_input_under_both_input_rules() {
    let source = "def _load(path=None):\n    ...\n";
    let none = Expr::NoneLiteral { range: range(15, 19) };
    let module = vec![function("_load", vec![parameter("path", 10, Some(none))], 26, 29)];
    let findings = check("test.py", source, module, newlines(source));
    assert_eq!(findings.len(), 2);
    assert_eq!(text(&findings[0].code), "GR001");
    assert_eq!(text(&findings[1].code), "GR002");
    assert_eq!(text(&findings[1].message), "Non-public input `path` must be required");
    assert_eq!(findings[0].location, findings[1].location);
}

#[test]
fn flags_public_inputs_under_their_own_rule() {
    let source = "def load(path):\n    ...\n";
    let module = vec![function("load", vec![parameter("path", 9, None)], 20, 23)];
    let findings = check("test.py", source, module, newlines(source));
    assert_eq!(findings.len(), 1);
    assert_eq!(text(&findings[0].code), "GR005");
    assert_eq!((findings[0].location.row, findings[0].location.column), (1, 10));
}

#[test]
fn a_noqa_comment_suppresses_the_codes_it_names() {
    let source = "def _save(path):  # noqa: GR001\n    ...\n";
    let module = vec![function("_save", vec![parameter("path", 10, None)], 36, 39)];
    let mut tokens = newlines(source);
    tokens.push(token(TokenKind::Comment, 18, 31));
    assert!(check("suppressed.py", source, module, tokens).is_empty());
}

#[test]
fn a_lowercase_code_is_prose() {
    let source = "def _save(path):  # noqa: gr001\n    ...\n";
    let module = vec![function("_save", vec![parameter("path", 10, None)], 36, 39)];
    let mut tokens = newlines(source);
    tokens.push(token(TokenKind::Comment, 18, 31));
    assert_eq!(check("lowercase_code.py", source, module, tokens).len(), 1);
}

#[test]
fn an_empty_code_list_names_no_rule() {
    let source = "def _save(path):  # noqa:\n    ...\n";
    let module = vec![function("_save", vec![parameter("path", 10, None)], 30, 33)];
    let mut tokens = newlines(source);
    tokens.push(token(TokenKind::Comment, 18, 25));
    assert_eq!(check("noqa_without_codes.py", source, module, tokens).len(), 1);
}

#[test]
fn a_bare_noqa_suppresses_every_rule() {
    let source = "def _save(path=None):  # noqa\n    ...\n";
    let none = Expr::NoneLiteral { range: range(15, 19) };
    let module = vec![function("_save", vec![parameter("path", 10, Some(none))], 34, 37)];
    let mut tokens = newlines(source);
    tokens.push(token(TokenKind::Comment, 23, 29));
    assert!(check("bare.py", source, module, tokens).is_empty());
}

#[test]
fn suppresses_each_rule_independently() {
    let source = "def _load(\\\n    path=None):  # noqa: GR001 -- positional protocol\n    ...\n";
    let none = Expr::NoneLiteral { range: range(21, 25) };
    let module = vec![function("_load", vec![parameter("path", 16, Some(none))], 70, 73)];
    let mut tokens = vec![
        token(TokenKind::Newline, 65, 66),
        token(TokenKind::Newline, 73, 74),
    ];
    tokens.push(token(TokenKind::Comment, 29, 65));
    let findings = check("test.py", source, module, tokens);
    assert_eq!(findings.len(), 1);
    assert_eq!(text(&findings[0].code), "GR002");
    assert_eq!(findings[0].noqa_row, Some(2));
}

#[test]
fn a_syntax_error_is_the_only_finding() {
    let source = "def broken(\n";
    let error = SyntaxError { message: "unexpected EOF while parsing".to_string(), range: range(12, 12) };
    let file = SourceFile::new(source.to_string(), Err(error)).expect("the range lies within the text");
    let findings = check_source(&"invalid.py".to_string(), &file);
    assert_eq!(findings.len(), 1);
    assert_eq!(text(&findings[0].code), "invalid-syntax");
    assert_eq!(text(&findings[0].message), "unexpected EOF while parsing");
    assert_eq!((findings[0].location.row, findings[0].location.column), (2, 1));
    assert_eq!(findings[0].noqa_row, None);
}

#[test]
fn refuses_a_parse_that_does_not_fit_its_text() {
    let tokens = vec![token(TokenKind::Newline, 3, 9)];
    assert!(SourceFile::new("x\n".to_string(), Ok(Parsed { module: Vec::new(), tokens })).is_none());
    let error = SyntaxError { message: "e".to_string(), range: range(2, 1) };
    assert!(SourceFile::new("abc".to_string(), Err(error)).is_none());
}

#[test]
fn flags_a_negated_condition_with_an_else() {
    let source = "if not x:\n    a\nelse:\n    b\n";
    let test = Expr::UnaryOp {
        op: UnaryOp::Not,
        operand: Box::new(name("x", 7, ExprContext::Load)),
        range: range(3, 8),
    };
    let body = vec![Stmt::Expr { value: name("a", 14, ExprContext::Load), range: range(14, 15) }];
    let orelse = vec![Stmt::Expr { value: name("b", 26, ExprContext::Load), range: range(26, 27) }];
    let module = vec![Stmt::If {
        test,
        body,
        clauses: vec![ElifElseClause { test: None, body: orelse, range: range(16, 27) }],
        range: range(0, 27),
    }];
    let findings = check("branch.py", source, module, newlines(source));
    assert_eq!(findings.len(), 1);
    assert_eq!(text(&findings[0].code), "GR010");
    assert_eq!(
        text(&findings[0].message),
        "Negated `if` condition with an `else`; test the positive form and swap the branches"
    );
    assert_eq!((findings[0].location.row, findings[0].location.column), (1, 1));
    assert_eq!((findings[0].end_location.row, findings[0].end_location.column), (1, 9));
}

#[test]
fn flags_an_uppercase_constant_without_final() {
    let source = "LIMIT = 10\n";
    let module = vec![Stmt::Assign {
        targets: vec![name("LIMIT", 0, ExprContext::Store)],
        value: Expr::Other { children: Vec::new(), range: range(8, 10) },
        range: range(0, 10),
    }];
    let findings = check("constants.py", source, module, newlines(source));
    assert_eq!(findings.len(), 1);
    assert_eq!(text(&findings[0].code), "GR004");
    assert_eq!(text(&findings[0].message), "Constant LIMIT must be annotated Final");
    assert_eq!((findings[0].location.row, findings[0].location.column), (1, 1));
}

#[test]
fn rules_report_in_table_order() {
    let source = "LIMIT = 10\ndef _load(path):\n    ...\n";
    let module = vec![
        Stmt::Assign {
            targets: vec![name("LIMIT", 0, ExprContext::Store)],
            value: Expr::Other { children: Vec::new(), range: range(8, 10) },
            range: range(0, 10),
        },
        Stmt::FunctionDef(FunctionDef {
            name: identifier("_load", 15),
            is_async: false,
            decorators: Vec::new(),
            type_params: Vec::new(),
            parameters: parameters(vec![parameter("path", 21, None)]),
            returns: None,
            body: vec![Stmt::Expr {
                value: Expr::EllipsisLiteral { range: range(32, 35) },
                range: range(32, 35),
            }],
            range: range(11, 35),
        }),
    ];
    let findings = check("order.py", source, module, newlines(source));
    let codes: Vec<String> = findings.iter().map(|f| text(&f.code)).collect();
    assert_eq!(codes, ["GR001", "GR004"]);
    assert_eq!(findings[0].location.row, 2);
}

fn assign(target: &str, start: usize, value: Expr, end: usize) -> Stmt {
    Stmt::Assign { targets: vec![name(target, start, ExprContext::Store)], value, range: range(start, end) }
}

#[test]
fn flags_a_package_initializer_without_dunder_all() {
    let source = "value = 1\n";
    let module = vec![assign("value", 0, Expr::Other { children: Vec::new(), range: range(8, 9) }, 9)];
    let findings = check("pkg/__init__.py", source, module, newlines(source));
    assert_eq!(findings.len(), 1);
    assert_eq!(text(&findings[0].code), "GR003");
    assert_eq!(
        text(&findings[0].message),
        "Package initializer with public bindings must define __all__ on every import path"
    );
    assert_eq!(findings[0].location.row, 1);

    let module = vec![assign("value", 0, Expr::Other { children: Vec::new(), range: range(8, 9) }, 9)];
    assert!(check("pkg/module.py", source, module, newlines(source)).is_empty());
}

#[test]
fn accepts_a_package_initializer_that_defines_dunder_all() {
    let source = "__all__ = []\nvalue = 1\n";
    let module = vec![
        assign("__all__", 0, Expr::List { elts: Vec::new(), ctx: ExprContext::Load, range: range(10, 12) }, 12),
        assign("value", 13, Expr::Other { children: Vec::new(), range: range(21, 22) }, 22),
    ];
    assert!(check("pkg/__init__.py", source, module, newlines(source)).is_empty());
    assert!(check("pkg/__init__.py", "", Vec::new(), Vec::new()).is_empty());
}

#[test]
fn flags_a_module_binding_read_by_one_function() {
    let source = "_limit = 3\ndef run():\n    return _limit\n";
    let module = vec![
        assign("_limit", 0, Expr::Other { children: Vec::new(), range: range(9, 10) }, 10),
        Stmt::FunctionDef(FunctionDef {
            name: identifier("run", 15),
            is_async: false,
            decorators: Vec::new(),
            type_params: Vec::new(),
            parameters: parameters(Vec::new()),
            returns: None,
            body: vec![Stmt::Return {
                value: Some(name("_limit", 33, ExprContext::Load)),
                range: range(26, 39),
            }],
            range: range(11, 39),
        }),
    ];
    let findings = check("consumer.py", source, module, newlines(source));
    assert_eq!(findings.len(), 1);
    assert_eq!(text(&findings[0].code), "GR011");
    assert_eq!(
        text(&findings[0].message),
        "Non-public module binding `_limit` is used only by `run`; move it into that definition"
    );
    assert_eq!((findings[0].location.row, findings[0].location.column), (1, 1));
}

#[test]
fn keeps_a_module_binding_read_at_module_level() {
    let source = "_limit = 3\nprint(_limit)\n";
    let call = Expr::Call {
        func: Box::new(name("print", 11, ExprContext::Load)),
        arguments: vec![name("_limit", 17, ExprContext::Load)],
        range: range(11, 24),
    };
    let module = vec![
        assign("_limit", 0, Expr::Other { children: Vec::new(), range: range(9, 10) }, 10),
        Stmt::Expr { value: call, range: range(11, 24) },
    ];
    assert!(check("consumer.py", source, module, newlines(source)).is_empty());
}

fn swallowing_test_module() -> Vec<Stmt> {
    let call = Expr::Call {
        func: Box::new(name("fetch", 35, ExprContext::Load)),
        arguments: Vec::new(),
        range: range(35, 42),
    };
    let handler = ExceptHandler {
        type_: Some(Box::new(name("ValueError", 54, ExprContext::Load))),
        name: None,
        body: vec![Stmt::Pass { range: range(74, 78) }],
        range: range(47, 78),
    };
    vec![Stmt::FunctionDef(FunctionDef {
        name: identifier("test_fetch", 4),
        is_async: false,
        decorators: Vec::new(),
        type_params: Vec::new(),
        parameters: parameters(Vec::new()),
        returns: None,
        body: vec![Stmt::Try {
            body: vec![Stmt::Expr { value: call, range: range(35, 42) }],
            handlers: vec![handler],
            orelse: Vec::new(),
            finalbody: Vec::new(),
            range: range(22, 78),
        }],
        range: range(0, 78),
    })]
}

#[test]
fn flags_a_swallowing_handler_only_in_test_files() {
    let source = "def test_fetch():\n    try:\n        fetch()\n    except ValueError:\n        pass\n";
    let findings = check("test_singleline.py", source, swallowing_test_module(), newlines(source));
    assert_eq!(findings.len(), 1);
    assert_eq!(text(&findings[0].code), "GR008");
    assert_eq!((findings[0].location.row, findings[0].location.column), (4, 5));
    assert_eq!((findings[0].end_location.row, findings[0].end_location.column), (4, 22));
    assert!(check("fetching.py", source, swallowing_test_module(), newlines(source)).is_empty());
}

#[test]
fn flags_a_docstring_on_a_non_public_definition() {
    let source = "def _load():\n    \"\"\"Load.\"\"\"\n";
    let docstring = Expr::StringLiteral { value: "Load.".to_string(), range: range(17, 28) };
    let module = vec![Stmt::FunctionDef(FunctionDef {
        name: identifier("_load", 4),
        is_async: false,
        decorators: Vec::new(),
        type_params: Vec::new(),
        parameters: parameters(Vec::new()),
        returns: None,
        body: vec![Stmt::Expr { value: docstring, range: range(17, 28) }],
        range: range(0, 28),
    })];
    let findings = check("docs.py", source, module, newlines(source));
    assert_eq!(findings.len(), 1);
    assert_eq!(text(&findings[0].code), "GR006");
    assert_eq!(
        text(&findings[0].message),
        "Remove docstring from non-public definition `_load`; rename it if its purpose is unclear"
    );
    assert_eq!((findings[0].location.row, findings[0].location.column), (2, 5));
    assert_eq!((findings[0].end_location.row, findings[0].end_location.column), (2, 16));
}

#[test]
fn flags_a_trailing_if_that_branches_again() {
    let source = "def run():\n    if ready:\n        if done:\n            stop()\n";
    let call = Expr::Call {
        func: Box::new(name("stop", 54, ExprContext::Load)),
        arguments: Vec::new(),
        range: range(54, 60),
    };
    let inner = Stmt::If {
        test: name("done", 36, ExprContext::Load),
        body: vec![Stmt::Expr { value: call, range: range(54, 60) }],
        clauses: Vec::new(),
        range: range(33, 60),
    };
    let outer = Stmt::If {
        test: name("ready", 18, ExprContext::Load),
        body: vec![inner],
        clauses: Vec::new(),
        range: range(15, 60),
    };
    let module = vec![Stmt::FunctionDef(FunctionDef {
        name: identifier("run", 4),
        is_async: false,
        decorators: Vec::new(),
        type_params: Vec::new(),
        parameters: parameters(Vec::new()),
        returns: None,
        body: vec![outer],
        range: range(0, 60),
    })];
    let findings = check("tails.py", source, module, newlines(source));
    assert_eq!(findings.len(), 1);
    assert_eq!(text(&findings[0].code), "GR009");
    assert_eq!(
        text(&findings[0].message),
        "Trailing `if` nests the rest of the body in its condition; invert it into an early `return` or `continue` guard"
    );
    assert_eq!((findings[0].location.row, findings[0].location.column), (2, 5));
    assert_eq!((findings[0].end_location.row, findings[0].end_location.column), (2, 13));
}

#[test]
fn flags_a_comment_that_restates_its_statement() {
    let source = "\n\n\n\n\n# ViT backbone\nvit_backbone = ViT(...)\n";
    let tokens = vec![token(TokenKind::Comment, 5, 19), token(TokenKind::Newline, 43, 44)];
    let findings = check("vit_backbone.py", source, Vec::new(), tokens);
    assert_eq!(findings.len(), 1);
    assert_eq!(text(&findings[0].code), "GR007");
    assert_eq!(
        text(&findings[0].message),
        "One-line comment restates the statement it annotates; delete it or state what the code cannot"
    );
    assert_eq!((findings[0].location.row, findings[0].location.column), (6, 1));

    let source = "\n\n\n\n\n# Retry because the service drops the first request\nvit_backbone = ViT(...)\n";
    let tokens = vec![token(TokenKind::Comment, 5, 56), token(TokenKind::Newline, 80, 81)];
    assert!(check("vit_backbone.py", source, Vec::new(), tokens).is_empty());
}

#[test]
fn never_flags_comments_in_the_header_lines() {
    let source = "# ViT backbone\nvit_backbone = ViT(...)\n";
    let tokens = vec![token(TokenKind::Comment, 0, 14), token(TokenKind::Newline, 38, 39)];
    assert!(check("vit_backbone.py", source, Vec::new(), tokens).is_empty());
}

fn codes_of(findings: &[Finding], code: &str) -> Vec<Finding> {
    findings.iter().filter(|f| text(&f.code) == code).map(|f| Finding {
        path: f.path.clone(),
        code: f.code.clone(),
        message: f.message.clone(),
        location: f.location,
        end_location: f.end_location,
        noqa_row: f.noqa_row,
        source_line: f.source_line.clone(),
    }).collect()
}

#[test]
fn reports_both_rules_for_a_defaulted_positional_input() {
    let source = "def _f(width=512):\n    ...\n";
    let default = Expr::Other { children: Vec::new(), range: range(13, 16) };
    let module = vec![function("_f", vec![parameter("width", 7, Some(default))], 23, 26)];
    let findings = check("test.py", source, module, newlines(source));

    assert_eq!(findings.len(), 2);
    assert_eq!(text(&findings[0].code), "GR001");
    assert_eq!(text(&findings[1].code), "GR002");
    assert_eq!(findings[0].location.row, 1);
    assert_eq!(findings[0].location.column, 8);
    assert_eq!(findings[0].location, findings[1].location);
}

#[test]
fn reports_only_positional_or_keyword_inputs() {
    let source = "def _load(path, /, mode):\n    ...\n";
    let mut definition = function("_load", vec![parameter("mode", 19, None)], 30, 33);
    if let Stmt::FunctionDef(f) = &mut definition {
        f.parameters.posonlyargs = vec![parameter("path", 10, None)];
    }
    let findings = codes_of(&check("test.py", source, vec![definition], newlines(source)), "GR001");

    assert_eq!(findings.len(), 1);
    assert_eq!(text(&findings[0].message), "Input `mode` must be positional-only or keyword-only");
}

#[test]
fn keeps_required_private_inputs_independent_for_positional_only_inputs() {
    let source = "def _load(path=None, /):\n    ...\n";
    let none = Expr::NoneLiteral { range: range(15, 19) };
    let mut definition = function("_load", Vec::new(), 29, 32);
    if let Stmt::FunctionDef(f) = &mut definition {
        f.parameters.posonlyargs = vec![parameter("path", 10, Some(none))];
    }
    let findings = check("test.py", source, vec![definition], newlines(source));

    assert_eq!(findings.len(), 1);
    assert_eq!(text(&findings[0].code), "GR002");
}

#[test]
fn a_lone_carriage_return_starts_a_row() {
    let source = "x = 1\rLIMIT = 10\n";
    let module = vec![
        assign("x", 0, Expr::Other { children: Vec::new(), range: range(4, 5) }, 5),
        assign("LIMIT", 6, Expr::Other { children: Vec::new(), range: range(14, 16) }, 16),
    ];
    let tokens = vec![token(TokenKind::Newline, 5, 6), token(TokenKind::Newline, 16, 17)];
    let findings = check("rows.py", source, module, tokens);
    assert_eq!(findings.len(), 1);
    assert_eq!((findings[0].location.row, findings[0].location.column), (2, 1));
    assert_eq!(text(&findings[0].source_line), "LIMIT = 10");
}
