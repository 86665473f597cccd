use gruff::check::check_source;
use gruff::check::Parsed;
use gruff::check::SourceFile;
use gruff::rules::explicit_instance_data::check_explicit_instance_data;
use gruff::rules::public_attribute_properties::check_public_attribute_properties;
use gruff::syntax::ClassDef;
use gruff::syntax::Expr;
use gruff::syntax::ExprContext;
use gruff::syntax::FunctionDef;
use gruff::syntax::Identifier;
use gruff::syntax::Parameter;
use gruff::syntax::Parameters;
use gruff::syntax::Stmt;
use gruff::syntax::TextRange;
use gruff::syntax::Token;
use gruff::syntax::TokenKind;

fn range(start: usize, end: usize) -> TextRange {
    TextRange { start, end }
}

fn identifier(id: &str, start: usize) -> Identifier {
    Identifier { id: id.to_string(), range: range(start, start + id.chars().count()) }
}

fn name(id: &str, start: usize) -> Expr {
    Expr::Name { id: id.to_string(), ctx: ExprContext::Load, range: range(start, start + id.chars().count()) }
}

/// `<object>.<attr>` with the object at `start` and the attribute right after the dot.
fn attribute(object: &str, attr: &str, start: usize, ctx: ExprContext) -> Expr {
    let attr_start = start + object.chars().count() + 1;
    Expr::Attribute {
        value: Box::new(name(object, start)),
        attr: identifier(attr, attr_start),
        ctx,
        range: range(start, attr_start + attr.chars().count()),
    }
}

fn none_at(start: usize) -> Expr {
    Expr::NoneLiteral { range: range(start, start + 4) }
}

/// `<object>.<attr> = None`.
fn store(object: &str, attr: &str, start: usize) -> Stmt {
    let target = attribute(object, attr, start, ExprContext::Store);
    let end = start + object.chars().count() + 1 + attr.chars().count();
    Stmt::Assign { targets: vec![target], value: none_at(end + 3), range: range(start, end + 7) }
}

fn method(def_name: &str, decorators: Vec<Expr>, args: &[&str], body: Vec<Stmt>) -> Stmt {
    let args = args
        .iter()
        .map(|a| Parameter { name: identifier(a, 0), annotation: None, default: None })
        .collect();
    Stmt::FunctionDef(FunctionDef {
        name: identifier(def_name, 0),
        is_async: false,
        decorators,
        type_params: Vec::new(),
        parameters: Parameters {
            posonlyargs: Vec::new(),
            args,
            vararg: None,
            kwonlyargs: Vec::new(),
            kwarg: None,
        },
        returns: None,
        body,
        range: range(0, 0),
    })
}

fn class(class_name: &str, body: Vec<Stmt>) -> Stmt {
    Stmt::ClassDef(ClassDef {
        name: identifier(class_name, 6),
        decorators: Vec::new(),
        type_params: Vec::new(),
        arguments: None,
        body,
        range: range(0, 0),
    })
}

fn text(chars: &[char]) -> String {
    chars.iter().collect()
}

const MESSAGE: &str =
    "Instance data field `error_message` is implicit; declare it as a dataclass field or expose it through a property.";

/// `class _Result:\n    def __init__(self):\n        self.error_message = None\n`
fn result_class() -> Stmt {
    class("_Result", vec![method("__init__", Vec::new(), &["self"], vec![store("self", "error_message", 47)])])
}

#[test]
fn flags_a_public_store_on_the_receiver() {
    let diagnostics = check_explicit_instance_data(&vec![result_class()]);
    assert_eq!(diagnostics.len(), 1);
    assert_eq!(text(&diagnostics[0].message), MESSAGE);
    assert_eq!((diagnostics[0].range.start, diagnostics[0].range.end), (52, 65));
    assert_eq!(diagnostics[0].noqa_offset, Some(52));
}

#[test]
fn reports_the_store_as_gr012_at_the_attribute_name() {
    let source = "class _Result:\n    def __init__(self):\n        self.error_message = None\n";
    let tokens: Vec<Token> = source
        .char_indices()
        .filter(|(_, c)| *c == '\n')
        .map(|(i, _)| Token { kind: TokenKind::Newline, range: range(i, i + 1) })
        .collect();
    let file = SourceFile::new(source.to_string(), Ok(Parsed { module: vec![result_class()], tokens }))
        .expect("the tokens lie within the text");
    let findings = check_source(&"result.py".to_string(), &file);
    let gr012: Vec<_> = findings.iter().filter(|f| text(&f.code) == "GR012").collect();
    assert_eq!(gr012.len(), 1);
    assert_eq!((gr012[0].location.row, gr012[0].location.column), (3, 14));
    assert_eq!((gr012[0].end_location.row, gr012[0].end_location.column), (3, 27));
    assert_eq!(text(&gr012[0].message), MESSAGE);
    assert_eq!(gr012[0].noqa_row, Some(3));
}

#[test]
fn a_declared_setter_permits_writes_anywhere_in_the_class() {
    let setter = Expr::Attribute {
        value: Box::new(name("error_message", 0)),
        attr: identifier("setter", 0),
        ctx: ExprContext::Load,
        range: range(0, 0),
    };
    let body = vec![
        method("error_message", vec![name("property", 0)], &["self"], Vec::new()),
        method("error_message", vec![setter], &["self", "value"], vec![store("self", "_error_message", 0)]),
        method("clear", Vec::new(), &["self"], vec![store("self", "error_message", 0)]),
    ];
    assert!(check_explicit_instance_data(&vec![class("_Result", body)]).is_empty());
}

#[test]
fn a_getter_alone_permits_only_annotation_only_declarations() {
    let declaration = Stmt::AnnAssign {
        target: attribute("self", "size", 0, ExprContext::Store),
        annotation: name("int", 0),
        value: None,
        range: range(0, 0),
    };
    let body = vec![
        method("size", vec![name("property", 0)], &["self"], Vec::new()),
        method("__init__", Vec::new(), &["self"], vec![declaration, store("self", "size", 20)]),
    ];
    let diagnostics = check_explicit_instance_data(&vec![class("Box", body)]);
    assert_eq!(diagnostics.len(), 1);
    assert_eq!(diagnostics[0].range.start, 25);
}

#[test]
fn private_names_and_other_objects_are_not_flagged() {
    let body = vec![method(
        "__init__",
        Vec::new(),
        &["this", "other"],
        vec![store("this", "_cache", 0), store("other", "name", 0), store("self", "name", 0)],
    )];
    assert!(check_explicit_instance_data(&vec![class("Service", body)]).is_empty());
}

#[test]
fn static_and_class_methods_and_class_hooks_are_excluded() {
    let body = vec![
        method("make", vec![name("staticmethod", 0)], &["item"], vec![store("item", "name", 0)]),
        method("build", vec![name("classmethod", 0)], &["cls"], vec![store("cls", "name", 0)]),
        method("__new__", Vec::new(), &["cls"], vec![store("cls", "name", 0)]),
        method("__init_subclass__", Vec::new(), &["cls"], vec![store("cls", "name", 0)]),
        method("run", Vec::new(), &[], vec![store("self", "name", 0)]),
    ];
    assert!(check_explicit_instance_data(&vec![class("Factory", body)]).is_empty());
}

#[test]
fn nested_functions_are_not_followed_and_nested_classes_are_checked() {
    let inner_function = method("inner", Vec::new(), &[], vec![store("self", "hidden", 0)]);
    let inner_class = class("Inner", vec![method("set", Vec::new(), &["me"], vec![store("me", "value", 40)])]);
    let body = vec![method("run", Vec::new(), &["self"], vec![inner_function]), inner_class];
    let diagnostics = check_explicit_instance_data(&vec![class("Outer", body)]);
    assert_eq!(diagnostics.len(), 1);
    assert_eq!(diagnostics[0].range.start, 43);
    assert!(text(&diagnostics[0].message).starts_with("Instance data field `value` is implicit"));
}

#[test]
fn stores_outside_classes_are_not_flagged() {
    let module = vec![
        method("configure", Vec::new(), &["self"], vec![store("self", "name", 0)]),
        store("self", "name", 0),
    ];
    assert!(check_explicit_instance_data(&module).is_empty());
}

const ATTRIBUTE_MESSAGE: &str =
    "Public instance attribute `error_message` must use underscore-prefixed storage and an explicit property";

#[test]
fn the_attribute_property_check_flags_the_whole_attribute() {
    let diagnostics = check_public_attribute_properties(&vec![result_class()]);
    assert_eq!(diagnostics.len(), 1);
    assert_eq!(text(&diagnostics[0].message), ATTRIBUTE_MESSAGE);
    assert_eq!((diagnostics[0].range.start, diagnostics[0].range.end), (47, 65));
    assert_eq!(diagnostics[0].noqa_offset, Some(47));
}

#[test]
fn the_attribute_property_check_reports_annotations_and_skips_setters() {
    let declaration = Stmt::AnnAssign {
        target: attribute("self", "size", 10, ExprContext::Store),
        annotation: name("int", 0),
        value: None,
        range: range(0, 0),
    };
    let setter = Expr::Attribute {
        value: Box::new(name("size", 0)),
        attr: identifier("setter", 0),
        ctx: ExprContext::Load,
        range: range(0, 0),
    };
    let body = vec![
        method("size", vec![name("property", 0)], &["self"], Vec::new()),
        method("size", vec![setter], &["self", "value"], vec![store("self", "size", 0)]),
        method("__init__", Vec::new(), &["self"], vec![declaration, store("self", "_size", 0)]),
        method("make", vec![name("staticmethod", 0)], &["item"], vec![store("item", "size", 0)]),
        method("build", vec![name("classmethod", 0)], &["cls"], vec![store("cls", "size", 0)]),
    ];
    let diagnostics = check_public_attribute_properties(&vec![class("Box", body)]);
    assert_eq!(diagnostics.len(), 1);
    assert_eq!((diagnostics[0].range.start, diagnostics[0].range.end), (10, 19));
}

#[test]
fn the_attribute_property_check_reads_only_class_members() {
    let nested = class("Inner", vec![method("set", Vec::new(), &["me"], vec![store("me", "value", 30)])]);
    let module = vec![
        class("Outer", vec![nested]),
        method("configure", Vec::new(), &["self"], vec![store("self", "name", 0)]),
        method("build", Vec::new(), &[], vec![class("Local", vec![method("m", Vec::new(), &["self"], vec![store("self", "x", 0)])])]),
    ];
    let diagnostics = check_public_attribute_properties(&module);
    assert_eq!(diagnostics.len(), 1);
    assert_eq!(diagnostics[0].range.start, 30);
}
