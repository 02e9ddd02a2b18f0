use flash::annotations::Annotations;
use flash::autolink::fmt_autolinks;
use flash::config::Config;
use flash::config::Project;
use flash::config::Templates;
use flash::symbol::AstEntity;
use flash::symbol::AstKind;
use flash::symbol::build_graph;
use flash::url_path::UrlPath;

fn test_config() -> Config {
    Config {
        project: Project {
            name: "Proj".to_string(),
            version: "1.0.0".to_string(),
            repository: None,
            tree: None,
            icon: None,
        },
        sources: Vec::new(),
        templates: Templates {
            class_template: String::new(),
            struct_template: String::new(),
            function_template: String::new(),
            index_template: String::new(),
            head: String::new(),
            nav: String::new(),
            file_template: String::new(),
            page: String::new(),
            tutorial_template: String::new(),
            tutorial_index: String::new(),
        },
        input_dir: UrlPath::new(),
        output_dir: UrlPath::new(),
        output_url: None,
        compile_args: Vec::new(),
    }
}

fn entity(kind: AstKind, name: &str, children: Vec<AstEntity>) -> AstEntity {
    AstEntity {
        kind,
        name: Some(name.to_string()),
        file: None,
        comment: None,
        in_system_header: false,
        is_definition: true,
        children,
    }
}

fn tu(children: Vec<AstEntity>) -> AstEntity {
    AstEntity {
        kind: AstKind::Other,
        name: None,
        file: None,
        comment: None,
        in_system_header: false,
        is_definition: false,
        children,
    }
}

#[test]
fn tokenizer_walk_and_claim() {
    let mut anns = Annotations::new("A and B");
    assert_eq!(anns.next().unwrap(), "A");
    assert_eq!(anns.next().unwrap(), "and");
    assert_eq!(anns.next().unwrap(), "B");
    assert!(anns.next().is_none());
    anns.rewind();
    assert_eq!(anns.next().unwrap(), "A");
}

#[test]
fn claimed_tokens_are_skipped() {
    let mut anns = Annotations::new("x y z");
    assert_eq!(anns.next().unwrap(), "x");
    anns.annotate("X".to_string());
    anns.rewind();
    assert_eq!(anns.next().unwrap(), "y");
    assert_eq!(anns.next().unwrap(), "z");
}

#[test]
fn into_result_without_claims_returns_text() {
    let anns = Annotations::new("nothing changes here!");
    assert_eq!(anns.into_result(), "nothing changes here!");
}

#[test]
fn offset_correction_applies_replacements_in_order() {
    // The first replacement is four characters longer than its token, the
    // second has the same length: the second still lands on its own token,
    // at its shifted position.
    let mut anns = Annotations::new("A and B");
    assert_eq!(anns.next().unwrap(), "A");
    anns.annotate("AAAAA".to_string());
    assert_eq!(anns.next().unwrap(), "and");
    assert_eq!(anns.next().unwrap(), "B");
    anns.annotate("X".to_string());
    assert_eq!(anns.into_result(), "AAAAA and X");
}

#[test]
fn offset_correction_with_shorter_replacement() {
    let mut anns = Annotations::new("first middle last");
    assert_eq!(anns.next().unwrap(), "first");
    anns.annotate("1".to_string());
    assert_eq!(anns.next().unwrap(), "middle");
    assert_eq!(anns.next().unwrap(), "last");
    anns.annotate("[last](x)".to_string());
    assert_eq!(anns.into_result(), "1 middle [last](x)");
}

#[test]
fn autolink_unknown_text_unchanged() {
    let config = test_config();
    let root = build_graph(&tu(vec![entity(AstKind::ClassDecl, "Widget", Vec::new())]));
    let text = "no known symbol name occurs in this sentence";
    assert_eq!(fmt_autolinks(&root, text, &config), text);
}

#[test]
fn autolink_links_mention() {
    let config = test_config();
    let root = build_graph(&tu(vec![entity(AstKind::ClassDecl, "Widget", Vec::new())]));
    assert_eq!(
        fmt_autolinks(&root, "uses Widget here", &config),
        "uses [Widget](/class/Widget) here"
    );
}

#[test]
fn autolink_lowercase_token_never_linked() {
    let config = test_config();
    let root = build_graph(&tu(vec![entity(AstKind::ClassDecl, "Foo", Vec::new())]));
    // "Foo and foo" with symbol Foo: only the first word is linked.
    assert_eq!(
        fmt_autolinks(&root, "Foo and foo", &config),
        "[Foo](/class/Foo) and foo"
    );
}

#[test]
fn autolink_all_lowercase_symbol_never_linked() {
    let config = test_config();
    let root = build_graph(&tu(vec![entity(AstKind::FunctionDecl, "get", Vec::new())]));
    assert_eq!(fmt_autolinks(&root, "call get now", &config), "call get now");
}

#[test]
fn autolink_claims_only_first_occurrence() {
    let config = test_config();
    let root = build_graph(&tu(vec![entity(AstKind::ClassDecl, "Foo", Vec::new())]));
    assert_eq!(
        fmt_autolinks(&root, "Foo then Foo", &config),
        "[Foo](/class/Foo) then Foo"
    );
}

#[test]
fn autolink_uses_nested_namespace_urls() {
    let config = test_config();
    let root = build_graph(&tu(vec![entity(
        AstKind::Namespace,
        "ns",
        vec![entity(AstKind::ClassDecl, "Foo", Vec::new())],
    )]));
    assert_eq!(
        fmt_autolinks(&root, "about Foo", &config),
        "about [Foo](/class/ns/Foo)"
    );
}
