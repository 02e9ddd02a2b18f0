use flash::symbol::AstEntity;
use flash::symbol::AstKind;
use flash::symbol::Symbol;
use flash::symbol::SymbolKind;
use flash::symbol::build_graph;

fn entity(kind: AstKind, name: &str, children: Vec<AstEntity>) -> AstEntity {
    AstEntity {
        kind,
        name: Some(name.to_string()),
        file: None,
        comment: None,
        in_system_header: false,
        is_definition: true,
        children,
    }
}

fn tu(children: Vec<AstEntity>) -> AstEntity {
    AstEntity {
        kind: AstKind::Other,
        name: None,
        file: None,
        comment: None,
        in_system_header: false,
        is_definition: false,
        children,
    }
}

fn names(entries: &[Symbol]) -> Vec<String> {
    entries.iter().map(|s| s.name.clone()).collect()
}

#[test]
fn namespaces_with_disjoint_children_merge_into_one_node() {
    // Two translation units both declare namespace ns, with disjoint child
    // classes: the graph holds one ns node whose children are the union.
    let root = build_graph(&tu(vec![
        entity(AstKind::Namespace, "ns", vec![entity(AstKind::ClassDecl, "A", Vec::new())]),
        entity(AstKind::Namespace, "ns", vec![entity(AstKind::ClassDecl, "B", Vec::new())]),
    ]));
    assert_eq!(root.entries.len(), 1);
    let ns = &root.entries[0];
    assert_eq!(ns.name, "ns");
    assert!(matches!(ns.kind, SymbolKind::Namespace));
    assert_eq!(names(&ns.entries), vec!["A".to_string(), "B".to_string()]);
}

#[test]
fn first_class_definition_wins() {
    let mut second = entity(AstKind::ClassDecl, "C", Vec::new());
    second.comment = Some("later".to_string());
    let mut first = entity(AstKind::ClassDecl, "C", Vec::new());
    first.comment = Some("earlier".to_string());
    let root = build_graph(&tu(vec![first, second]));
    assert_eq!(root.entries.len(), 1);
    assert_eq!(root.entries[0].comment.as_deref(), Some("earlier"));
}

#[test]
fn forward_declarations_are_skipped() {
    let mut fwd = entity(AstKind::ClassDecl, "C", Vec::new());
    fwd.is_definition = false;
    let root = build_graph(&tu(vec![fwd]));
    assert!(root.entries.is_empty());
}

#[test]
fn system_header_entities_are_skipped() {
    let mut sys = entity(AstKind::ClassDecl, "Hidden", Vec::new());
    sys.in_system_header = true;
    let root = build_graph(&tu(vec![sys, entity(AstKind::StructDecl, "Kept", Vec::new())]));
    assert_eq!(names(&root.entries), vec!["Kept".to_string()]);
}

#[test]
fn unnamed_entities_are_skipped() {
    let mut anon = entity(AstKind::FunctionDecl, "x", Vec::new());
    anon.name = None;
    let root = build_graph(&tu(vec![anon]));
    assert!(root.entries.is_empty());
}

#[test]
fn function_redeclaration_replaces_the_earlier_entry() {
    let mut first = entity(AstKind::FunctionDecl, "f", Vec::new());
    first.comment = Some("old".to_string());
    let mut second = entity(AstKind::FunctionDecl, "f", Vec::new());
    second.comment = Some("new".to_string());
    let root = build_graph(&tu(vec![first, second]));
    assert_eq!(root.entries.len(), 1);
    assert_eq!(root.entries[0].comment.as_deref(), Some("new"));
}

#[test]
fn kinds_map_to_symbol_kinds() {
    let root = build_graph(&tu(vec![
        entity(AstKind::Namespace, "n", Vec::new()),
        entity(AstKind::ClassDecl, "c", Vec::new()),
        entity(AstKind::ClassTemplate, "t", Vec::new()),
        entity(AstKind::StructDecl, "s", Vec::new()),
        entity(AstKind::FunctionDecl, "f", Vec::new()),
    ]));
    let kinds: Vec<SymbolKind> = root.entries.iter().map(|e| e.kind).collect();
    assert_eq!(
        kinds,
        vec![
            SymbolKind::Namespace,
            SymbolKind::Class,
            SymbolKind::Class,
            SymbolKind::Struct,
            SymbolKind::Function,
        ]
    );
}

#[test]
fn namespace_with_name_taken_by_class_is_dropped() {
    let root = build_graph(&tu(vec![
        entity(AstKind::ClassDecl, "x", Vec::new()),
        entity(AstKind::Namespace, "x", vec![entity(AstKind::ClassDecl, "In", Vec::new())]),
    ]));
    assert_eq!(root.entries.len(), 1);
    assert!(matches!(root.entries[0].kind, SymbolKind::Class));
}

#[test]
fn select_flattens_and_filters_depth_first() {
    let mut in_file = entity(AstKind::FunctionDecl, "g", Vec::new());
    in_file.file = Some("src/x.cpp".to_string());
    let root = build_graph(&tu(vec![
        entity(
            AstKind::Namespace,
            "ns",
            vec![
                entity(AstKind::ClassDecl, "Inner", Vec::new()),
                in_file,
            ],
        ),
        entity(AstKind::ClassDecl, "Outer", Vec::new()),
    ]));
    let classes = root.select(&flash::symbol::SymbolFilter::OfKind(SymbolKind::Class));
    let class_names: Vec<String> = classes.iter().map(|s| s.name.clone()).collect();
    assert_eq!(class_names, vec!["Inner".to_string(), "Outer".to_string()]);
    let in_x = root.select(&flash::symbol::SymbolFilter::OfKindInFile(
        SymbolKind::Function,
        "src/x.cpp".to_string(),
    ));
    assert_eq!(in_x.len(), 1);
    assert_eq!(in_x[0].name, "g");
    let everything = root.select(&flash::symbol::SymbolFilter::All);
    assert_eq!(everything.len(), 5);
}
