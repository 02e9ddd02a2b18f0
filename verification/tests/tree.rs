use flash::config::Config;
use flash::config::Project;
use flash::config::Source;
use flash::config::Templates;
use flash::files::File;
use flash::files::Root;
use flash::markdown::Metadata;
use flash::tutorial::Tutorial;
use flash::tutorial::TutorialFolder;
use flash::url_path::UrlPath;

fn path(segments: &[&str]) -> UrlPath {
    UrlPath::new_with_path(segments.iter().map(|s| s.to_string()).collect())
}

fn meta(title: Option<&str>, order: Option<usize>) -> Metadata {
    Metadata {
        title: title.map(|s| s.to_string()),
        description: None,
        icon: None,
        order,
    }
}

fn test_config(sources: Vec<Source>) -> Config {
    Config {
        project: Project {
            name: "Proj".to_string(),
            version: "1.0.0".to_string(),
            repository: None,
            tree: None,
            icon: None,
        },
        sources,
        templates: Templates {
            class_template: String::new(),
            struct_template: String::new(),
            function_template: String::new(),
            index_template: String::new(),
            head: String::new(),
            nav: String::new(),
            file_template: String::new(),
            page: String::new(),
            tutorial_template: String::new(),
            tutorial_index: String::new(),
        },
        input_dir: UrlPath::new(),
        output_dir: UrlPath::new(),
        output_url: None,
        compile_args: Vec::new(),
    }
}

#[test]
fn file_urls_sit_under_the_listing_prefix() {
    let f = File::new(0, path(&["core", "a.hpp"]));
    assert_eq!(f.url().to_raw_string(), "files/core/a.hpp");
    assert_eq!(f.name().unwrap(), "a.hpp");
}

#[test]
fn roots_mirror_the_include_layout() {
    let source = Source {
        name: "api".to_string(),
        dir: path(&["include"]),
        include_files: vec![
            path(&["include", "top.hpp"]),
            path(&["include", "core", "deep.hpp"]),
        ],
        include_dirs: vec![path(&["include", "core"])],
        strip_include_prefix: None,
    };
    let roots = Root::from_config(&test_config(vec![source]));
    assert_eq!(roots.len(), 1);
    let root = &roots[0];
    assert_eq!(root.source, 0);
    // The top-level file sits in the root directory.
    assert_eq!(root.dir.files.len(), 1);
    assert_eq!(root.dir.files[0].path.to_raw_string(), "top.hpp");
    // The `core` directory was created once and holds the deep file.
    assert_eq!(root.dir.dirs.len(), 1);
    let core = &root.dir.dirs[0];
    assert_eq!(core.path.to_raw_string(), "include/core");
    assert_eq!(core.files.len(), 1);
    assert_eq!(core.files[0].path.to_raw_string(), "core/deep.hpp");
}

#[test]
fn tutorials_sort_by_configured_order_then_name() {
    let folder = TutorialFolder {
        is_root: true,
        is_open: true,
        path: UrlPath::new(),
        metadata: None,
        index: None,
        folders: Vec::new(),
        tutorials: vec![
            Tutorial::new(path(&["b.md"]), meta(Some("Beta"), None), String::new()),
            Tutorial::new(path(&["z.md"]), meta(Some("Zulu"), Some(1)), String::new()),
            Tutorial::new(path(&["a.md"]), meta(Some("Alpha"), None), String::new()),
            Tutorial::new(path(&["y.md"]), meta(Some("Yank"), Some(0)), String::new()),
        ],
    };
    let sorted: Vec<String> = folder
        .tutorials_sorted()
        .iter()
        .map(|t| t.metadata.title.clone().unwrap())
        .collect();
    assert_eq!(sorted, vec!["Yank", "Zulu", "Alpha", "Beta"]);
}

#[test]
fn folders_sort_by_name() {
    let sub = |name: &str| TutorialFolder {
        is_root: false,
        is_open: false,
        path: path(&[name]),
        metadata: None,
        index: None,
        folders: Vec::new(),
        tutorials: Vec::new(),
    };
    let folder = TutorialFolder {
        is_root: true,
        is_open: true,
        path: UrlPath::new(),
        metadata: None,
        index: None,
        folders: vec![sub("charlie"), sub("alpha"), sub("bravo")],
        tutorials: Vec::new(),
    };
    let sorted: Vec<String> = folder.folders_sorted().iter().map(|f| f.name()).collect();
    assert_eq!(sorted, vec!["alpha", "bravo", "charlie"]);
}

#[test]
fn empty_root_folder_shape() {
    let root = TutorialFolder::empty_root();
    assert!(root.is_root);
    assert!(root.folders.is_empty());
    assert!(root.tutorials.is_empty());
}

#[test]
fn tutorial_urls_drop_the_markdown_extension() {
    let t = Tutorial::new(path(&["guide", "start.md"]), meta(Some("Start"), None), String::new());
    assert_eq!(t.url().to_raw_string(), "guide/start");
    assert_eq!(t.name().unwrap(), "Start");
}

#[test]
fn compile_command_lists_are_rebuilt() {
    let config = test_config(Vec::new());
    let cmd = flash::cmake::CompileCommand {
        directory: "/proj/build".to_string(),
        command: "clang++ -c main.cpp -DX=\"\" @args.rsp".to_string(),
        file: "/proj/main.cpp".to_string(),
    };
    let rsp = vec![("args.rsp".to_string(), "-I/extra -v".to_string())];
    let args = cmd.get_command_list(&config, &rsp).unwrap();
    assert_eq!(
        args,
        vec![
            "-DX=".to_string(),
            "-I/extra".to_string(),
            "-v".to_string(),
            "-I".to_string(),
            "-working-directory=/proj/build".to_string(),
        ]
    );
}

#[test]
fn missing_response_file_fails_the_list() {
    let config = test_config(Vec::new());
    let cmd = flash::cmake::CompileCommand {
        directory: "d".to_string(),
        command: "cc @gone.rsp".to_string(),
        file: "f".to_string(),
    };
    assert!(cmd.get_command_list(&config, &Vec::new()).is_none());
}

#[test]
fn compile_args_come_from_the_matching_entry() {
    let mut config = test_config(Vec::new());
    config.compile_args = vec!["-std=c++17".to_string()];
    let commands = vec![flash::cmake::CompileCommand {
        directory: "d".to_string(),
        command: "cc -v other.cpp".to_string(),
        file: "main.cpp".to_string(),
    }];
    let args =
        flash::cmake::cmake_compile_args_for(&commands, &"main.cpp".to_string(), &config, &Vec::new())
            .unwrap();
    assert!(args.contains(&"-std=c++17".to_string()));
    assert!(
        flash::cmake::cmake_compile_args_for(&commands, &"nope.cpp".to_string(), &config, &Vec::new())
            .is_none()
    );
}
