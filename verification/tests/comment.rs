use flash::comment::CommentLexer;
use flash::comment::JSDocComment;
use flash::comment::ParsedCommand;

#[test]
fn parses_description_params_and_returns() {
    let doc = JSDocComment::parse("Does a thing.\n@param x The value\n@return Doubled value");
    assert_eq!(doc.description.as_deref(), Some("Does a thing."));
    assert_eq!(doc.params, vec![("x".to_string(), "The value".to_string())]);
    assert_eq!(doc.returns.as_deref(), Some("Doubled value"));
    assert!(doc.throws.is_none());
    assert!(doc.examples().is_empty());
}

#[test]
fn bare_at_yields_a_document() {
    let doc = JSDocComment::parse("@");
    assert!(doc.description.is_none());
    assert!(doc.params.is_empty());
}

#[test]
fn unknown_tag_is_consumed_and_skipped() {
    let doc = JSDocComment::parse("text before\n@mystery some value\n@return r");
    assert_eq!(doc.description.as_deref(), Some("text before"));
    assert_eq!(doc.returns.as_deref(), Some("r"));
    assert!(doc.params.is_empty());
}

#[test]
fn missing_param_and_value_degrade_to_empty() {
    let doc = JSDocComment::parse("@param");
    assert_eq!(doc.params, vec![(String::new(), String::new())]);
}

#[test]
fn empty_input_yields_empty_document() {
    let doc = JSDocComment::parse("");
    assert!(doc.description.is_none());
    assert!(doc.params.is_empty());
    assert!(doc.returns.is_none());
}

#[test]
fn block_markers_are_stripped() {
    let doc = JSDocComment::parse("/* Hello there */");
    assert_eq!(doc.description.as_deref(), Some("Hello there"));
}

#[test]
fn repeatable_tags_accumulate_in_order() {
    let doc = JSDocComment::parse(
        "@note first\n@note second\n@warning careful\n@see other\n@tparam T a type",
    );
    assert_eq!(doc.notes, vec!["first".to_string(), "second".to_string()]);
    assert_eq!(doc.warnings, vec!["careful".to_string()]);
    assert_eq!(doc.see, vec!["other".to_string()]);
    assert_eq!(doc.tparams, vec![("T".to_string(), "a type".to_string())]);
}

#[test]
fn version_and_since_are_recorded() {
    let doc = JSDocComment::parse("@version 1.2\n@since 0.9");
    assert_eq!(doc.version.as_deref(), Some("1.2"));
    assert_eq!(doc.since.as_deref(), Some("0.9"));
}

#[test]
fn example_without_attribute_is_not_analyzed() {
    let doc = JSDocComment::parse("@example int x = 1;");
    assert_eq!(doc.examples().len(), 1);
    assert_eq!(doc.examples()[0].data, "int x = 1;");
    assert!(!doc.examples()[0].analyze);
}

#[test]
fn example_with_analyze_attribute_is_flagged() {
    let doc = JSDocComment::parse("@example[analyze] int x = 1;");
    assert_eq!(doc.examples().len(), 1);
    assert!(doc.examples()[0].analyze);
}

#[test]
fn starred_lines_compress_to_single_breaks() {
    let doc = JSDocComment::parse("/* line one\n * line two */");
    assert_eq!(doc.description.as_deref(), Some("line one\nline two"));
}

#[test]
fn lexer_reads_commands_params_and_values() {
    let mut lexer = CommentLexer::new("@param x rest of it");
    let cmd = lexer.next_command().unwrap();
    assert_eq!(cmd.cmd, "param");
    assert_eq!(lexer.param_for(), "x");
    assert_eq!(lexer.value_for(), "rest of it");
    assert!(lexer.next_command().is_none());
}

#[test]
fn lexer_implicit_description_command() {
    let mut lexer = CommentLexer::new("plain text");
    let cmd = lexer.next_command().unwrap();
    assert_eq!(cmd.cmd, "description");
    assert_eq!(lexer.next_value().unwrap(), "plain text");
}

#[test]
fn lexer_parses_attributes() {
    let mut lexer = CommentLexer::new("@example[kind=cpp, analyze] body");
    let cmd = lexer.next_command().unwrap();
    assert_eq!(cmd.cmd, "example");
    assert!(cmd.has_attr("analyze"));
    assert!(cmd.has_attr("kind"));
    assert!(!cmd.has_attr("missing"));
    assert_eq!(lexer.value_for(), "body");
}

#[test]
fn parsed_command_constructors() {
    let plain = ParsedCommand::new("param".to_string());
    assert_eq!(plain.cmd, "param");
    assert!(plain.attrs.is_empty());
    let with = ParsedCommand::new_with(
        "example".to_string(),
        vec![("analyze".to_string(), None)],
    );
    assert!(with.has_attr("analyze"));
}

#[test]
fn value_stops_at_next_command() {
    let doc = JSDocComment::parse("start text @return tail");
    assert_eq!(doc.description.as_deref(), Some("start text"));
    assert_eq!(doc.returns.as_deref(), Some("tail"));
}

#[test]
fn rendered_document_holds_sections() {
    let doc = JSDocComment::parse("@version 1.2\n@param x The value\n@note careful");
    let html = doc.to_html(None, true).gen_html();
    assert!(html.starts_with("<div class=\"description\" >"));
    assert!(html.contains("<div class=\"tags\" ><p  >Version 1.2</p></div>"));
    assert!(html.contains("<span class=\"title\" >Parameters</span>"));
    assert!(html.contains("<p  >x</p> <div  >The value</div>"));
    assert!(html.contains("<span class=\"title\" >Note</span> <div  >careful</div>"));
}

#[test]
fn rendered_document_splices_description_markup() {
    let doc = JSDocComment::parse("ignored here");
    let html = doc
        .to_html(Some(flash::html::Html::Raw("<em>D</em>".to_string())), false)
        .gen_html();
    assert!(html.contains("<div class=\"tags\" ></div> <em>D</em>"));
}

#[test]
fn examples_render_as_plain_code_blocks() {
    let doc = JSDocComment::parse("@example int x;");
    let html = doc.examples()[0].to_html().gen_html();
    assert_eq!(html, "<pre  ><code class=\"example language-cpp\" >int x;</code></pre>");
    let without = doc.to_html(None, false).gen_html();
    assert!(!without.contains("<pre"));
    let with = doc.to_html(None, true).gen_html();
    assert!(with.contains("<pre"));
}
