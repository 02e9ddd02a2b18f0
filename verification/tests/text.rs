use flash::config::Config;
use flash::config::Project;
use flash::config::Source;
use flash::config::Templates;
use flash::encode::url_encode;
use flash::linker::abs_docs_url;
use flash::linker::docs_category;
use flash::linker::header_of;
use flash::linker::include_path;
use flash::linker::rel_docs_url;
use flash::markdown::MdEvent;
use flash::markdown::Metadata;
use flash::markdown::fmt_emoji;
use flash::markdown::resolve_metadata;
use flash::markdown::rewrite_link_dest;
use flash::markdown::split_markdown_metadata;
use flash::markdown::title_from_events;
use flash::symbol::SymbolKind;
use flash::url_path::UrlPath;

fn path(segments: &[&str]) -> UrlPath {
    UrlPath::new_with_path(segments.iter().map(|s| s.to_string()).collect())
}

fn test_config(output_url: Option<UrlPath>, sources: Vec<Source>, input_dir: UrlPath) -> Config {
    Config {
        project: Project {
            name: "Proj".to_string(),
            version: "1.0.0".to_string(),
            repository: None,
            tree: None,
            icon: None,
        },
        sources,
        templates: Templates {
            class_template: String::new(),
            struct_template: String::new(),
            function_template: String::new(),
            index_template: String::new(),
            head: String::new(),
            nav: String::new(),
            file_template: String::new(),
            page: String::new(),
            tutorial_template: String::new(),
            tutorial_index: String::new(),
        },
        input_dir,
        output_dir: UrlPath::new(),
        output_url,
        compile_args: Vec::new(),
    }
}

#[test]
fn percent_encoding_escapes_reserved_bytes() {
    assert_eq!(url_encode("a b!"), "a%20b%21");
    assert_eq!(url_encode("plain-text_1.2"), "plain-text_1.2");
    assert_eq!(url_encode("x<y>{z}"), "x%3Cy%3E%7Bz%7D");
}

#[test]
fn percent_encoding_escapes_every_utf8_byte_outside_ascii() {
    assert_eq!(url_encode("é"), "%C3%A9");
}

#[test]
fn emoji_shortcodes_are_substituted() {
    assert_eq!(fmt_emoji("I like :joy: a lot"), "I like 😂 a lot");
}

#[test]
fn unknown_shortcode_is_kept() {
    assert_eq!(fmt_emoji("keep :zzzqq: text"), "keep :zzzqq: text");
}

#[test]
fn colon_without_code_is_kept() {
    assert_eq!(fmt_emoji("a: b"), "a: b");
    assert_eq!(fmt_emoji("12:30"), "12:30");
}

#[test]
fn trailing_code_without_closing_colon_still_matches() {
    assert_eq!(fmt_emoji("end :joy"), "end 😂");
}

#[test]
fn metadata_block_is_split_off() {
    let (meta, body) = split_markdown_metadata("---\ntitle: x\n---\nbody text");
    assert_eq!(meta.as_deref(), Some("\ntitle: x\n"));
    assert_eq!(body, "\nbody text");
}

#[test]
fn document_without_front_matter_is_unchanged() {
    let (meta, body) = split_markdown_metadata("# Title\ntext");
    assert!(meta.is_none());
    assert_eq!(body, "# Title\ntext");
}

#[test]
fn unclosed_front_matter_keeps_the_rest() {
    let (meta, body) = split_markdown_metadata("---abc");
    assert!(meta.is_none());
    assert_eq!(body, "abc");
}

#[test]
fn title_from_leading_heading() {
    let events = vec![
        MdEvent::HeadingStart,
        MdEvent::Text("Hello".to_string()),
        MdEvent::Text(" World".to_string()),
        MdEvent::HeadingEnd,
        MdEvent::Text("rest".to_string()),
    ];
    assert_eq!(title_from_events(&events).as_deref(), Some("Hello World"));
}

#[test]
fn no_title_without_leading_heading() {
    let events = vec![MdEvent::Text("plain".to_string())];
    assert!(title_from_events(&events).is_none());
    assert!(title_from_events(&Vec::new()).is_none());
}

#[test]
fn metadata_title_wins_over_heading() {
    let meta = Metadata {
        title: Some("From Meta".to_string()),
        description: Some("d".to_string()),
        icon: None,
        order: Some(3),
    };
    let resolved = resolve_metadata(Some(meta), Some("From Heading".to_string()), None).unwrap();
    assert_eq!(resolved.title.as_deref(), Some("From Meta"));
    assert_eq!(resolved.description.as_deref(), Some("d"));
    assert_eq!(resolved.order, Some(3));
}

#[test]
fn heading_fills_missing_metadata_title() {
    let meta = Metadata { title: None, description: None, icon: None, order: None };
    let resolved = resolve_metadata(Some(meta), Some("Heading".to_string()), None).unwrap();
    assert_eq!(resolved.title.as_deref(), Some("Heading"));
}

#[test]
fn without_metadata_and_titles_there_is_nothing() {
    assert!(resolve_metadata(None, None, None).is_none());
    let fallback = resolve_metadata(None, None, Some("file".to_string())).unwrap();
    assert_eq!(fallback.title.as_deref(), Some("file"));
}

#[test]
fn site_absolute_links_lose_md_and_gain_base() {
    let config = test_config(Some(path(&["docs"])), Vec::new(), UrlPath::new());
    assert_eq!(rewrite_link_dest("/guide/intro.md", true, true, &config), "/docs/guide/intro");
    assert_eq!(rewrite_link_dest("/guide/intro.md", false, true, &config), "/docs/guide/intro.md");
    assert_eq!(rewrite_link_dest("https://other", true, true, &config), "https://other");
}

#[test]
fn category_prefixes() {
    assert_eq!(docs_category(SymbolKind::Namespace).to_raw_string(), "namespace");
    assert_eq!(docs_category(SymbolKind::Class).to_raw_string(), "class");
    assert_eq!(docs_category(SymbolKind::Struct).to_raw_string(), "struct");
    assert_eq!(docs_category(SymbolKind::Function).to_raw_string(), "function");
}

#[test]
fn relative_docs_urls_are_category_prefixed() {
    let quals = vec!["ns".to_string(), "Foo".to_string()];
    assert_eq!(rel_docs_url(SymbolKind::Class, &quals).to_raw_string(), "class/ns/Foo");
}

#[test]
fn std_symbols_redirect_to_the_reference_site() {
    let config = test_config(Some(path(&["docs"])), Vec::new(), UrlPath::new());
    let quals = vec!["std".to_string(), "stoi".to_string()];
    let url = abs_docs_url(SymbolKind::Function, &quals, &Some("include/string".to_string()), &config)
        .unwrap();
    assert_eq!(url.to_raw_string(), "en.cppreference.com/w/cpp/string/stoi");
    assert!(
        abs_docs_url(SymbolKind::Function, &quals, &None, &config).is_none()
    );
}

#[test]
fn ordinary_symbols_get_internal_urls() {
    let config = test_config(Some(path(&["docs"])), Vec::new(), UrlPath::new());
    let quals = vec!["Foo".to_string()];
    let url = abs_docs_url(SymbolKind::Class, &quals, &None, &config).unwrap();
    assert_eq!(url.to_raw_string(), "docs/class/Foo");
}

#[test]
fn header_and_include_paths() {
    let source = Source {
        name: "api".to_string(),
        dir: path(&["include"]),
        include_files: Vec::new(),
        include_dirs: Vec::new(),
        strip_include_prefix: None,
    };
    let config = test_config(None, vec![source], path(&["proj"]));
    let header = header_of("proj/include/foo/bar.hpp", &config);
    assert_eq!(header.to_raw_string(), "include/foo/bar.hpp");
    let inc = include_path("proj/include/foo/bar.hpp", &config).unwrap();
    assert_eq!(inc.to_raw_string(), "foo/bar.hpp");
    assert!(include_path("elsewhere/foo.hpp", &config).is_none());
}

#[test]
fn heading_anchors_join_lowercased_words() {
    let texts = vec!["My Heading!".to_string(), "Part 2".to_string()];
    assert_eq!(flash::markdown::heading_anchor(&texts), "my-heading-part-2");
}

#[test]
fn heading_anchor_of_empty_texts_is_empty() {
    assert_eq!(flash::markdown::heading_anchor(&Vec::new()), "");
    assert_eq!(flash::markdown::heading_anchor(&vec!["!!!".to_string()]), "");
}
