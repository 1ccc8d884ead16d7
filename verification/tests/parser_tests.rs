use schema_lsp::ast::Attribute;
use schema_lsp::ast::DataType;
use schema_lsp::ast::EnumValue;
use schema_lsp::lexer::tokenize;
use schema_lsp::parser::parse;
use schema_lsp::span::Span;
use schema_lsp::syntax::Declaration;
use schema_lsp::syntax::EnumNode;
use schema_lsp::syntax::ModelNode;
use schema_lsp::syntax::Program;
use schema_lsp::syntax::SyntaxDiagnostic;
use schema_lsp::syntax::SyntaxErrorKind;

fn parse_text(text: &str) -> (Program, Vec<SyntaxDiagnostic>) {
    parse(&tokenize(text))
}

fn model(program: &Program, i: usize) -> &ModelNode {
    match &program.declarations[i] {
        Declaration::Model(node) => node,
        Declaration::Enum(_) => panic!("declaration {} is an enum", i),
    }
}

fn enumeration(program: &Program, i: usize) -> &EnumNode {
    match &program.declarations[i] {
        Declaration::Enum(node) => node,
        Declaration::Model(_) => panic!("declaration {} is a model", i),
    }
}

fn slice(text: &str, span: Span) -> String {
    text.chars().skip(span.start).take(span.end - span.start).collect()
}

#[test]
fn empty_document_has_no_declarations_and_no_diagnostics() {
    let (program, diagnostics) = parse_text("");
    assert_eq!(program.declarations.len(), 0);
    assert_eq!(diagnostics.len(), 0);
    let (program, diagnostics) = parse_text("  // nothing here\n");
    assert_eq!(program.declarations.len(), 0);
    assert_eq!(diagnostics.len(), 0);
}

#[test]
fn model_with_fields_is_parsed() {
    let text = "model User { id: UUID queryable\n name: String optional default(\"x\") }";
    let (program, diagnostics) = parse_text(text);
    assert_eq!(diagnostics.len(), 0);
    assert_eq!(program.declarations.len(), 1);
    let node = model(&program, 0);
    assert_eq!(node.model.name, "User");
    assert_eq!(node.model.fields.len(), 2);
    assert_eq!(node.fields.len(), 2);
    let id = &node.model.fields[0];
    assert_eq!(id.name, "id");
    assert!(matches!(id.data_type, DataType::UUID));
    assert_eq!(id.attributes.len(), 1);
    assert!(matches!(id.attributes[0], Attribute::Queryable));
    assert!(id.inner_type.is_none());
    let name = &node.model.fields[1];
    assert_eq!(name.name, "name");
    assert!(matches!(name.data_type, DataType::String));
    assert_eq!(name.attributes.len(), 2);
    assert!(matches!(name.attributes[0], Attribute::Optional));
    match &name.attributes[1] {
        Attribute::Default(value) => assert_eq!(value, "\"x\""),
        other => panic!("unexpected attribute {:?}", other),
    }
    assert_eq!(node.span, Span { start: 0, end: text.chars().count() });
    assert_eq!(node.name_span, Span { start: 6, end: 10 });
    assert_eq!(node.body, Span { start: 12, end: text.chars().count() - 1 });
    assert!(node.type_hole.is_none());
}

#[test]
fn enum_with_variants_is_parsed() {
    let text = "enum Status { Active, Inactive }";
    let (program, diagnostics) = parse_text(text);
    assert_eq!(diagnostics.len(), 0);
    let node = enumeration(&program, 0);
    assert_eq!(node.decl.name, "Status");
    assert_eq!(node.decl.values.len(), 2);
    match &node.decl.values[0] {
        EnumValue::Variant(name) => assert_eq!(name, "Active"),
    }
    match &node.decl.values[1] {
        EnumValue::Variant(name) => assert_eq!(name, "Inactive"),
    }
    assert_eq!(node.values, vec![Span { start: 14, end: 20 }, Span { start: 22, end: 30 }]);
    assert_eq!(node.span, Span { start: 0, end: 32 });
    assert_eq!(node.body, Span { start: 13, end: 31 });
}

#[test]
fn enum_may_end_with_a_comma_and_may_be_empty() {
    let (program, diagnostics) = parse_text("enum A { X, Y, } enum B {}");
    assert_eq!(diagnostics.len(), 0);
    assert_eq!(enumeration(&program, 0).decl.values.len(), 2);
    assert_eq!(enumeration(&program, 1).decl.values.len(), 0);
}

#[test]
fn named_type_is_a_reference_by_name() {
    let (program, diagnostics) = parse_text("model User { status: Status }");
    assert_eq!(diagnostics.len(), 0);
    let field = &model(&program, 0).model.fields[0];
    match &field.data_type {
        DataType::Enum(name) => assert_eq!(name, "Status"),
        other => panic!("unexpected type {:?}", other),
    }
    assert!(field.inner_type.is_none());
}

#[test]
fn array_type_fills_the_inner_type() {
    let text = "model Post { tags: [Tag] optional, scores: [Int] }";
    let (program, diagnostics) = parse_text(text);
    assert_eq!(diagnostics.len(), 0);
    let node = model(&program, 0);
    let tags = &node.model.fields[0];
    match &tags.data_type {
        DataType::Enum(name) => assert_eq!(name, "Tag"),
        other => panic!("unexpected type {:?}", other),
    }
    assert_eq!(tags.inner_type.as_deref(), Some("Tag"));
    assert_eq!(slice(text, node.fields[0].ty), "[Tag]");
    let scores = &node.model.fields[1];
    assert!(matches!(scores.data_type, DataType::Int));
    assert_eq!(scores.inner_type.as_deref(), Some("Int"));
}

#[test]
fn malformed_model_followed_by_valid_model_gives_one_diagnostic() {
    let text = "model { id: String }\nmodel User { id: String }";
    let (program, diagnostics) = parse_text(text);
    assert_eq!(diagnostics.len(), 1);
    assert_eq!(diagnostics[0].kind, SyntaxErrorKind::UnexpectedToken);
    assert_eq!(diagnostics[0].span, Span { start: 6, end: 7 });
    assert_eq!(program.declarations.len(), 1);
    let node = model(&program, 0);
    assert_eq!(node.model.name, "User");
    assert_eq!(node.model.fields.len(), 1);
    assert_eq!(node.model.fields[0].name, "id");
}

#[test]
fn malformed_field_does_not_swallow_the_next_declaration() {
    let text = "model A { id String } model B { x: Int }";
    let (program, diagnostics) = parse_text(text);
    assert_eq!(diagnostics.len(), 1);
    assert_eq!(diagnostics[0].kind, SyntaxErrorKind::UnexpectedToken);
    assert_eq!(slice(text, diagnostics[0].span), "String");
    assert_eq!(program.declarations.len(), 2);
    assert_eq!(model(&program, 0).model.name, "A");
    assert_eq!(model(&program, 0).model.fields.len(), 0);
    assert_eq!(model(&program, 1).model.name, "B");
    assert_eq!(model(&program, 1).model.fields.len(), 1);
}

#[test]
fn field_without_type_leaves_a_hole_behind_the_colon() {
    let text = "model User { id: }";
    let (program, diagnostics) = parse_text(text);
    assert_eq!(diagnostics.len(), 1);
    assert_eq!(diagnostics[0].kind, SyntaxErrorKind::UnexpectedToken);
    assert_eq!(diagnostics[0].span, Span { start: 17, end: 18 });
    let node = model(&program, 0);
    assert_eq!(node.model.fields.len(), 0);
    assert_eq!(node.type_hole, Some(Span { start: 16, end: 17 }));
    assert_eq!(node.span, Span { start: 0, end: 18 });
}

#[test]
fn body_that_runs_into_the_end_is_unterminated() {
    let text = "model User { id: String";
    let (program, diagnostics) = parse_text(text);
    assert_eq!(diagnostics.len(), 1);
    assert_eq!(diagnostics[0].kind, SyntaxErrorKind::UnterminatedBody);
    assert_eq!(diagnostics[0].span, Span { start: 23, end: 23 });
    let node = model(&program, 0);
    assert_eq!(node.model.fields.len(), 1);
    assert_eq!(node.span, Span { start: 0, end: 23 });
    assert_eq!(node.body, Span { start: 12, end: 23 });
}

#[test]
fn body_that_runs_into_the_next_declaration_is_unterminated() {
    let text = "model A { x: Int enum E { V }";
    let (program, diagnostics) = parse_text(text);
    assert_eq!(diagnostics.len(), 1);
    assert_eq!(diagnostics[0].kind, SyntaxErrorKind::UnterminatedBody);
    assert_eq!(slice(text, diagnostics[0].span), "enum");
    assert_eq!(program.declarations.len(), 2);
    assert_eq!(model(&program, 0).model.fields.len(), 1);
    assert_eq!(model(&program, 0).span, Span { start: 0, end: 17 });
    assert_eq!(enumeration(&program, 1).decl.name, "E");
}

#[test]
fn broken_default_keeps_the_field_and_what_was_read() {
    let text = "model A { x: Int queryable default( } model B {}";
    let (program, diagnostics) = parse_text(text);
    assert_eq!(diagnostics.len(), 1);
    assert_eq!(diagnostics[0].kind, SyntaxErrorKind::UnexpectedToken);
    assert_eq!(diagnostics[0].span, Span { start: 36, end: 37 });
    let node = model(&program, 0);
    assert_eq!(node.model.fields.len(), 1);
    assert_eq!(node.model.fields[0].attributes.len(), 1);
    assert_eq!(program.declarations.len(), 2);
}

#[test]
fn stray_tokens_between_declarations_are_reported_once() {
    let text = "} ) , model A {} ( enum B {}";
    let (program, diagnostics) = parse_text(text);
    assert_eq!(diagnostics.len(), 2);
    assert_eq!(diagnostics[0].span, Span { start: 0, end: 1 });
    assert_eq!(diagnostics[1].span, Span { start: 17, end: 18 });
    assert_eq!(program.declarations.len(), 2);
}

#[test]
fn model_without_brace_is_skipped() {
    let (program, diagnostics) = parse_text("model A model B { }");
    assert_eq!(diagnostics.len(), 1);
    assert_eq!(diagnostics[0].span, Span { start: 8, end: 13 });
    assert_eq!(program.declarations.len(), 1);
    assert_eq!(model(&program, 0).model.name, "B");
}

#[test]
fn attributes_may_be_separated_by_a_bar() {
    let (program, diagnostics) = parse_text("model A { x: Int queryable | optional | }");
    assert_eq!(diagnostics.len(), 0);
    assert_eq!(model(&program, 0).model.fields[0].attributes.len(), 2);
}

#[test]
fn default_takes_a_number_an_identifier_or_a_string() {
    let (program, diagnostics) = parse_text("model A { a: Int default(0) b: Boolean default(true) c: String default(\"s\") }");
    assert_eq!(diagnostics.len(), 0);
    let fields = &model(&program, 0).model.fields;
    let values: Vec<String> = fields
        .iter()
        .map(|f| match &f.attributes[0] {
            Attribute::Default(v) => v.clone(),
            other => panic!("unexpected attribute {:?}", other),
        })
        .collect();
    assert_eq!(values, vec!["0".to_string(), "true".to_string(), "\"s\"".to_string()]);
}

#[test]
fn comments_and_blanks_are_passed_over() {
    let text = "// users\nmodel User { // body\n  id: UUID // key\n}\n";
    let (program, diagnostics) = parse_text(text);
    assert_eq!(diagnostics.len(), 0);
    assert_eq!(model(&program, 0).model.fields.len(), 1);
    assert_eq!(model(&program, 0).span, Span { start: 9, end: 49 });
}

#[test]
fn names_are_the_text_at_their_spans() {
    let text = "enum Status { Active, Inactive }\nmodel User {\n  status: Status default(Active) queryable\n  tags: [String]\n}\n";
    let (program, diagnostics) = parse_text(text);
    assert_eq!(diagnostics.len(), 0);
    let e = enumeration(&program, 0);
    assert_eq!(slice(text, e.name_span), e.decl.name);
    for (value, span) in e.decl.values.iter().zip(e.values.iter()) {
        match value {
            EnumValue::Variant(name) => assert_eq!(&slice(text, *span), name),
        }
    }
    assert_eq!(slice(text, e.span), "enum Status { Active, Inactive }");
    let m = model(&program, 1);
    assert_eq!(slice(text, m.name_span), m.model.name);
    assert_eq!(m.fields.len(), m.model.fields.len());
    for (field, places) in m.model.fields.iter().zip(m.fields.iter()) {
        assert_eq!(slice(text, places.name), field.name);
        assert_eq!(places.attributes.len(), field.attributes.len());
    }
    assert_eq!(slice(text, m.fields[0].ty), "Status");
    assert_eq!(slice(text, m.fields[0].attributes[0]), "default(Active)");
    assert_eq!(slice(text, m.fields[0].attributes[1]), "queryable");
    assert_eq!(slice(text, m.fields[1].ty), "[String]");
    assert_eq!(
        slice(text, m.span),
        "model User {\n  status: Status default(Active) queryable\n  tags: [String]\n}"
    );
}

#[test]
fn declarations_and_the_gaps_between_them_give_back_the_text() {
    let text = "  enum A { X }\n// note\nmodel B { x: A }  ";
    let (program, _) = parse_text(text);
    let mut rebuilt = String::new();
    let mut at = 0usize;
    for declaration in program.declarations.iter() {
        let span = match declaration {
            Declaration::Model(node) => node.span,
            Declaration::Enum(node) => node.span,
        };
        assert!(at <= span.start);
        rebuilt.push_str(&slice(text, Span { start: at, end: span.start }));
        rebuilt.push_str(&slice(text, span));
        at = span.end;
    }
    rebuilt.push_str(&slice(text, Span { start: at, end: text.chars().count() }));
    assert_eq!(rebuilt, text);
}
