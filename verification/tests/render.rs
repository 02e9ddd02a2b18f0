use flash::html::Html;
use flash::html::HtmlElement;
use flash::html::HtmlList;
use flash::html::HtmlText;
use flash::html::fmt_section;
use flash::html::GenHtml;
use flash::html::sanitize_html;
use flash::nav::NavItem;
use flash::nav::SubItem;
use flash::config::Config;
use flash::config::Project;
use flash::config::Templates;
use flash::url_path::UrlPath;

fn test_config(output_url: Option<UrlPath>) -> Config {
    Config {
        project: Project {
            name: "Proj".to_string(),
            version: "1.0.0".to_string(),
            repository: None,
            tree: None,
            icon: None,
        },
        sources: Vec::new(),
        templates: Templates {
            class_template: String::new(),
            struct_template: String::new(),
            function_template: String::new(),
            index_template: String::new(),
            head: String::new(),
            nav: String::new(),
            file_template: String::new(),
            page: String::new(),
            tutorial_template: String::new(),
            tutorial_index: String::new(),
        },
        input_dir: UrlPath::new(),
        output_dir: UrlPath::new(),
        output_url,
        compile_args: Vec::new(),
    }
}

fn path(segments: &[&str]) -> UrlPath {
    UrlPath::new_with_path(segments.iter().map(|s| s.to_string()).collect())
}

#[test]
fn paragraph_markup() {
    assert_eq!(Html::p("hi").gen_html(), "<p  >hi</p>");
}

#[test]
fn text_is_entity_escaped() {
    assert_eq!(Html::p("<x>").gen_html(), "<p  >&lt;x&gt;</p>");
    assert_eq!(sanitize_html("a<b>c"), "a&lt;b&gt;c");
}

#[test]
fn span_carries_classes() {
    let classes = vec!["kw".to_string(), "name".to_string()];
    assert_eq!(Html::span(&classes, "int").gen_html(), "<span class=\"kw name\" >int</span>");
}

#[test]
fn feather_icon_markup() {
    assert_eq!(Html::feather("box").gen_html(), "<i  data-feather=\"box\"></i>");
}

#[test]
fn attribute_values_are_escaped() {
    let e = HtmlElement::new("d").with_attr("href", "a\"b".to_string());
    assert_eq!(e.gen_html_element(), "<d  href=\"a\\\"b\"></d>");
}

#[test]
fn onclick_attribute_is_kept_raw() {
    let e = HtmlElement::new("d").with_attr("onclick", "go('x')".to_string());
    assert_eq!(e.gen_html_element(), "<d  onclick=\"go('x')\"></d>");
}

#[test]
fn setting_an_attribute_twice_replaces_its_value() {
    let e = HtmlElement::new("d")
        .with_attr("id", "one".to_string())
        .with_attr("id", "two".to_string());
    assert!(e.has_attr("id"));
    assert_eq!(e.gen_html_element(), "<d  id=\"two\"></d>");
}

#[test]
fn children_join_with_single_spaces() {
    let e = HtmlElement::new("div")
        .with_child(Html::p("a"))
        .with_child(Html::p("b"));
    assert!(e.has_children());
    assert_eq!(e.gen_html_element(), "<div  ><p  >a</p> <p  >b</p></div>");
}

#[test]
fn list_joins_siblings() {
    let l = HtmlList::new(vec![Html::p("a"), Html::Raw("RAW".to_string())]);
    assert_eq!(l.gen_html_string(), "<p  >a</p> RAW");
}

#[test]
fn raw_markup_passes_through() {
    assert_eq!(Html::Raw("<b>x</b>".to_string()).gen_html(), "<b>x</b>");
}

#[test]
fn text_node_renders_escaped() {
    assert_eq!(HtmlText::new("1<2").gen_html_string(), "1&lt;2");
}

#[test]
fn element_class_queries() {
    let e = HtmlElement::new("p").with_class("one");
    assert!(e.has_class("one"));
    assert!(!e.has_class("two"));
}

#[test]
fn nav_link_markup() {
    let config = test_config(None);
    let item = NavItem::new_link("Home", path(&["p"]), None, Vec::new());
    assert_eq!(
        item.to_html(&config).gen_html(),
        "<a  onclick=\"return navigate('/p')\" href=\"/p\">Home</a>"
    );
}

#[test]
fn nav_link_under_output_base() {
    let config = test_config(Some(path(&["docs"])));
    let item = NavItem::new_link("Home", path(&["p"]), None, Vec::new());
    assert_eq!(
        item.to_html(&config).gen_html(),
        "<a  onclick=\"return navigate('/docs/p')\" href=\"/docs/p\">Home</a>"
    );
}

#[test]
fn nav_dir_markup_holds_children() {
    let config = test_config(None);
    let link = NavItem::new_link("L", path(&["x"]), None, Vec::new());
    let dir = NavItem::new_dir("D", vec![link], None);
    let html = dir.to_html(&config).gen_html();
    assert!(html.starts_with("<details  ><summary  ><i  data-feather=\"chevron-right\"></i> D</summary>"));
    assert!(html.contains("href=\"/x\""));
}

#[test]
fn nav_open_dir_has_open_attribute() {
    let config = test_config(None);
    let dir = NavItem::new_dir_open("D", Vec::new(), None, true);
    assert!(dir.to_html(&config).gen_html().starts_with("<details  open=\"\">"));
}

#[test]
fn nav_root_without_name_is_a_bare_list() {
    let config = test_config(None);
    let root = NavItem::new_root(
        None,
        vec![NavItem::new_link("A", path(&["a"]), None, Vec::new())],
    );
    assert_eq!(
        root.to_html(&config).gen_html(),
        "<a  onclick=\"return navigate('/a')\" href=\"/a\">A</a>"
    );
}

#[test]
fn nav_link_with_icon_and_suboptions() {
    let config = test_config(None);
    let sub = SubItem::new("m".to_string(), "m".to_string(), None);
    let item = NavItem::new_link(
        "C",
        path(&["c"]),
        Some(("box".to_string(), true)),
        vec![sub],
    );
    let html = item.to_html(&config).gen_html();
    assert!(html.contains("<i class=\"icon variant\" data-feather=\"box\"></i>"));
}

#[test]
fn section_markup_counts_entries() {
    let html = fmt_section("Functions", vec![Html::p("a"), Html::p("b")]).gen_html();
    assert!(html.starts_with("<details class=\"section\" open=\"\">"));
    assert!(html.contains("Functions"));
    assert!(html.contains("<span class=\"badge\" >2</span>"));
}

#[test]
fn empty_section_counts_zero() {
    let html = fmt_section("Fields", Vec::new()).gen_html();
    assert!(html.contains("<span class=\"badge\" >0</span>"));
}
