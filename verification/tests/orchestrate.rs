use flash::builder::Builder;
use flash::builder::aggregate_results;
use flash::builder::default_format;
use flash::builder::metadata_json;
use flash::builder::page_title;
use flash::builder::render_page;
use flash::config::Config;
use flash::config::Project;
use flash::config::Templates;
use flash::symbol::AstEntity;
use flash::symbol::AstKind;
use flash::symbol::build_graph;
use flash::url_path::UrlPath;

fn test_config() -> Config {
    Config {
        project: Project {
            name: "Proj".to_string(),
            version: "1.0.0".to_string(),
            repository: Some("https://example.org/repo".to_string()),
            tree: None,
            icon: None,
        },
        sources: Vec::new(),
        templates: Templates {
            class_template: String::new(),
            struct_template: String::new(),
            function_template: String::new(),
            index_template: String::new(),
            head: "<meta name=\"t\" content=\"{page_title}\">".to_string(),
            nav: "NAV[{entity_content}|{tutorial_content}|{file_content}]".to_string(),
            file_template: String::new(),
            page: "{head_content}%{navbar_content}%{main_content}".to_string(),
            tutorial_template: String::new(),
            tutorial_index: String::new(),
        },
        input_dir: UrlPath::new(),
        output_dir: UrlPath::new(),
        output_url: None,
        compile_args: Vec::new(),
    }
}

fn empty_root() -> flash::symbol::Symbol {
    build_graph(&AstEntity {
        kind: AstKind::Other,
        name: None,
        file: None,
        comment: None,
        in_system_header: false,
        is_definition: false,
        children: Vec::new(),
    })
}

#[test]
fn aggregate_all_ok_is_ok() {
    let results = vec![Ok("a".to_string()), Ok("b".to_string())];
    assert!(aggregate_results(&results).is_ok());
}

#[test]
fn aggregate_fail_fast_takes_first_error() {
    let results = vec![
        Ok("a".to_string()),
        Err("first failure".to_string()),
        Ok("b".to_string()),
        Err("second failure".to_string()),
    ];
    assert_eq!(aggregate_results(&results).unwrap_err(), "first failure");
}

#[test]
fn aggregate_single_failure_fails_the_build() {
    let mut results = vec![Ok("a".to_string()); 7];
    results.push(Err("boom".to_string()));
    assert!(aggregate_results(&results).is_err());
}

#[test]
fn aggregate_empty_is_ok() {
    assert!(aggregate_results(&Vec::new()).is_ok());
}

#[test]
fn nav_cache_is_computed_once_and_shared() {
    let mut b = Builder::new(test_config(), empty_root());
    b.prebuild_nav(&"T".to_string(), &"E".to_string(), &"F".to_string()).unwrap();
    let nav1 = b.build_nav().unwrap();
    let nav2 = b.build_nav().unwrap();
    assert_eq!(nav1, "NAV[E|T|F]");
    assert_eq!(nav1, nav2);
}

#[test]
fn prebuild_nav_reports_template_failure() {
    let mut config = test_config();
    config.templates.nav = "{missing_variable}".to_string();
    let mut b = Builder::new(config, empty_root());
    assert!(b.prebuild_nav(&String::new(), &String::new(), &String::new()).is_err());
}

#[test]
fn page_titles() {
    assert_eq!(page_title("", "Proj"), "Proj Docs");
    assert_eq!(page_title("Foo", "Proj"), "Foo - Proj Docs");
}

#[test]
fn metadata_json_shape() {
    assert_eq!(
        metadata_json("T", "D"),
        "{\"title\": \"T\", \"description\": \"D\"}"
    );
}

#[test]
fn default_format_holds_project_values() {
    let vars = default_format(&test_config());
    assert!(vars.contains(&("project_name".to_string(), "Proj".to_string())));
    assert!(vars.contains(&("project_version".to_string(), "1.0.0".to_string())));
    assert!(vars.contains(&(
        "project_repository".to_string(),
        "https://example.org/repo".to_string()
    )));
    assert!(vars.contains(&("output_url".to_string(), "/".to_string())));
}

#[test]
fn render_page_fills_templates() {
    let config = test_config();
    let page = render_page(
        &config,
        &"NAVHTML".to_string(),
        &"Foo".to_string(),
        &"About Foo".to_string(),
        &"/class/Foo".to_string(),
        &"BODY={page_title}:{page_description}:{x}".to_string(),
        vec![("x".to_string(), "42".to_string())],
    )
    .unwrap();
    assert_eq!(page.content_html, "BODY=Foo - Proj Docs:About Foo:42");
    assert_eq!(
        page.index_html,
        "<meta name=\"t\" content=\"Foo - Proj Docs\">%NAVHTML%BODY=Foo - Proj Docs:About Foo:42"
    );
    assert_eq!(
        page.metadata_json,
        "{\"title\": \"Foo - Proj Docs\", \"description\": \"About Foo\"}"
    );
}

#[test]
fn render_page_reports_failing_template() {
    let config = test_config();
    let result = render_page(
        &config,
        &String::new(),
        &String::new(),
        &String::new(),
        &"/p".to_string(),
        &"{not_defined_anywhere}".to_string(),
        Vec::new(),
    );
    match result {
        Ok(_) => panic!("formatting should have failed"),
        Err(err) => assert_eq!(err, "Unable to format /p"),
    }
}
