use flash::config::Config;
use flash::config::Project;
use flash::config::Source;
use flash::config::Templates;
use flash::config::get_css_path;
use flash::url_path::UrlPath;

fn path(segments: &[&str]) -> UrlPath {
    UrlPath::new_with_path(segments.iter().map(|s| s.to_string()).collect())
}

fn empty_templates() -> Templates {
    Templates {
        class_template: String::new(),
        struct_template: String::new(),
        function_template: String::new(),
        index_template: String::new(),
        head: String::new(),
        nav: String::new(),
        file_template: String::new(),
        page: String::new(),
        tutorial_template: String::new(),
        tutorial_index: String::new(),
    }
}

fn test_config(output_url: Option<UrlPath>) -> Config {
    Config {
        project: Project {
            name: "Proj".to_string(),
            version: "1.0.0".to_string(),
            repository: None,
            tree: None,
            icon: None,
        },
        sources: Vec::new(),
        templates: empty_templates(),
        input_dir: UrlPath::new(),
        output_dir: path(&["out"]),
        output_url,
        compile_args: Vec::new(),
    }
}

#[test]
fn round_trip_plain_segments() {
    let p = path(&["a", "b", "c"]);
    let parsed = UrlPath::parse(&p.to_raw_string()).unwrap();
    assert_eq!(parsed.to_raw_string(), p.to_raw_string());
    assert_eq!(parsed.len(), 3);
}

#[test]
fn round_trip_single_segment() {
    let p = path(&["docs"]);
    let parsed = UrlPath::parse(&p.to_raw_string()).unwrap();
    assert_eq!(parsed.to_raw_string(), "docs");
}

#[test]
fn round_trip_empty() {
    let p = path(&[]);
    let parsed = UrlPath::parse(&p.to_raw_string()).unwrap();
    assert!(parsed.is_empty());
}

#[test]
fn dot_segments_are_dropped() {
    assert_eq!(
        path(&["a", ".", "b"]).to_raw_string(),
        path(&["a", "b"]).to_raw_string()
    );
}

#[test]
fn dotdot_pops_previous_segment() {
    assert_eq!(path(&["a", "b", ".."]).to_raw_string(), path(&["a"]).to_raw_string());
}

#[test]
fn dotdot_clamps_at_root() {
    assert_eq!(path(&[".."]).to_raw_string(), path(&[]).to_raw_string());
    assert!(path(&[".."]).is_empty());
}

#[test]
fn empty_segments_are_dropped() {
    assert_eq!(path(&["a", "", "b"]).to_raw_string(), "a/b");
}

#[test]
fn parse_splits_on_slashes() {
    let p = UrlPath::parse("a/b/c").unwrap();
    assert_eq!(p.to_raw_string(), "a/b/c");
    let q = UrlPath::parse("/docs/thing/").unwrap();
    assert_eq!(q.to_raw_string(), "docs/thing");
}

#[test]
fn join_concatenates() {
    let p = path(&["a", "b"]).join(&path(&["c"]));
    assert_eq!(p.to_raw_string(), "a/b/c");
}

#[test]
fn strip_prefix_removes_matching_prefix() {
    let p = path(&["a", "b", "c"]);
    assert_eq!(p.strip_prefix(&path(&["a", "b"])).to_raw_string(), "c");
    assert_eq!(p.strip_prefix(&path(&["x"])).to_raw_string(), "a/b/c");
    assert!(p.starts_with(&path(&["a"])));
    assert!(!p.starts_with(&path(&["b"])));
}

#[test]
fn file_names() {
    let p = path(&["dir", "a b"]);
    assert_eq!(p.raw_file_name().unwrap(), "a b");
    assert_eq!(p.file_name().unwrap(), "a%20b");
    assert!(path(&[]).file_name().is_none());
    assert!(path(&[]).raw_file_name().is_none());
}

#[test]
fn encoded_rendering_escapes_reserved_characters() {
    let p = path(&["a b", "c<d"]);
    assert_eq!(p.to_encoded_string(), "/a%20b/c%3Cd");
    let parts = p.url_safe_parts();
    assert_eq!(parts, vec!["a%20b".to_string(), "c%3Cd".to_string()]);
}

#[test]
fn encoded_rendering_keeps_plain_characters() {
    assert_eq!(path(&["abc-123_x.y"]).to_encoded_string(), "/abc-123_x.y");
}

#[test]
fn to_absolute_joins_under_base() {
    let p = path(&["class", "Foo"]);
    let abs = p.to_absolute(&Some(path(&["docs"])));
    assert_eq!(abs.to_raw_string(), "docs/class/Foo");
    let bare = p.to_absolute(&None);
    assert_eq!(bare.to_raw_string(), "class/Foo");
}

#[test]
fn remove_extension_strips_matching_suffix() {
    assert_eq!(path(&["t", "intro.md"]).remove_extension(".md").to_raw_string(), "t/intro");
    assert_eq!(path(&["t", "intro.txt"]).remove_extension(".md").to_raw_string(), "t/intro.txt");
    assert_eq!(path(&[".md"]).remove_extension(".md").to_raw_string(), ".md");
}

#[test]
fn css_path_sits_inside_output_dir() {
    let config = test_config(None);
    assert_eq!(get_css_path(&config).to_raw_string(), "out/style.css");
}

#[test]
fn include_prefix_defaults_to_root() {
    let src = Source {
        name: "api".to_string(),
        dir: path(&["include"]),
        include_files: vec![path(&["include", "a.hpp"])],
        include_dirs: Vec::new(),
        strip_include_prefix: None,
    };
    assert!(src.include_prefix().is_empty());
    let config = Config { sources: vec![src], ..test_config(None) };
    let includes = config.all_includes();
    assert_eq!(includes.len(), 1);
    assert_eq!(includes[0].to_raw_string(), "include/a.hpp");
}
