//! Sidebar navigation: the tree of links and collapsible directories that
//! every page shares, and its rendering to HTML.

use vstd::prelude::*;

use crate::config::Config;
use crate::html::Html;
use crate::html::HtmlElement;
use crate::html::HtmlList;
use crate::html::HtmlModel;
use crate::html::HtmlText;
use crate::html::attrs_pairs;
use crate::html::find_attr_plain;
use crate::html::html_model;
use crate::html::html_models;
use crate::html::lemma_html_models_index;
use crate::html::strs;
use crate::url_path::UrlPath;
use vstd::multiset::Multiset;

verus! {

broadcast use vstd::std_specs::vec::axiom_vec_decreases_to_view, vstd::seq::axiom_seq_index_decreases, vstd::multiset::group_multiset_axioms, vstd::seq_lib::group_to_multiset_ensures;

/// A sub-anchor of a link: one member entry reachable under the page.
pub struct SubItem {
    pub title: String,
    pub heading: String,
    pub icon: Option<(String, bool)>,
}

/// One entry of the sidebar: the whole tree's root, a collapsible
/// directory, or a link to a page.
pub enum NavItem {
    Root(Option<String>, Vec<NavItem>),
    Dir(String, Vec<NavItem>, Option<(String, bool)>, bool),
    Link(String, UrlPath, Option<(String, bool)>, Vec<SubItem>),
}

/// The model of a sub-anchor.
#[verifier::ext_equal]
pub struct SubModel {
    pub title: Seq<char>,
    pub heading: Seq<char>,
    pub icon: Option<(Seq<char>, bool)>,
}

/// The model of a sidebar entry.
#[verifier::ext_equal]
pub enum NavModel {
    Root(Option<Seq<char>>, Seq<NavModel>),
    Dir(Seq<char>, Seq<NavModel>, Option<(Seq<char>, bool)>, bool),
    Link(Seq<char>, Seq<Seq<char>>, Option<(Seq<char>, bool)>, Seq<SubModel>),
}

/// The view of an optional icon.
pub open spec fn icon_view(icon: Option<(String, bool)>) -> Option<(Seq<char>, bool)> {
    match icon {
        Some(i) => Some((i.0@, i.1)),
        None => None,
    }
}

/// The model of a sub-anchor.
pub open spec fn sub_model(s: SubItem) -> SubModel {
    SubModel { title: s.title@, heading: s.heading@, icon: icon_view(s.icon) }
}

/// The models of a vector of sub-anchors.
pub open spec fn sub_models(v: Seq<SubItem>) -> Seq<SubModel> {
    Seq::new(v.len(), |i: int| sub_model(v[i]))
}

/// The model of a sidebar entry.
pub open spec fn nav_model(n: NavItem) -> NavModel
    decreases n via nav_model_decreases
{
    match n {
        NavItem::Root(name, items) => NavModel::Root(
            match name {
                Some(s) => Some(s@),
                None => None,
            },
            nav_models(items@),
        ),
        NavItem::Dir(name, items, icon, open) => NavModel::Dir(
            name@,
            nav_models(items@),
            icon_view(icon),
            open,
        ),
        NavItem::Link(name, url, icon, subs) => NavModel::Link(
            name@,
            url@,
            icon_view(icon),
            sub_models(subs@),
        ),
    }
}

#[via_fn]
proof fn nav_model_decreases(n: NavItem) {
    match n {
        NavItem::Root(name, items) => {
            assert(decreases_to!(n => items));
            assert(decreases_to!(items => items@));
        },
        NavItem::Dir(name, items, icon, open) => {
            assert(decreases_to!(n => items));
            assert(decreases_to!(items => items@));
        },
        _ => {},
    }
}

/// The models of a sequence of sidebar entries.
pub open spec fn nav_models(ns: Seq<NavItem>) -> Seq<NavModel>
    decreases ns, ns.len(),
{
    if ns.len() == 0 {
        Seq::empty()
    } else {
        seq![nav_model(ns[0])] + nav_models(ns.drop_first())
    }
}

/// The models of a sequence of sidebar entries, element by element.
pub proof fn lemma_nav_models_index(ns: Seq<NavItem>)
    ensures
        nav_models(ns).len() == ns.len(),
        forall|i: int| 0 <= i < ns.len() ==> nav_models(ns)[i] == nav_model(ns[i]),
    decreases ns.len(),
{
    if ns.len() > 0 {
        lemma_nav_models_index(ns.drop_first());
    }
}

impl SubItem {
    /// A sub-anchor.
    pub fn new(title: String, heading: String, icon: Option<(String, bool)>) -> (r: SubItem)
        ensures
            sub_model(r) == (SubModel {
                title: title@,
                heading: heading@,
                icon: icon_view(icon),
            }),
    {
        SubItem { title, heading, icon }
    }
}

impl NavItem {
    /// A link entry.
    pub fn new_link(name: &str, url: UrlPath, icon: Option<(String, bool)>, suboptions: Vec<
        SubItem,
    >) -> (r: NavItem)
        ensures
            nav_model(r) == NavModel::Link(name@, url@, icon_view(icon), sub_models(suboptions@)),
    {
        NavItem::Link(name.to_owned(), url, icon, suboptions)
    }

    /// A closed directory entry.
    pub fn new_dir(name: &str, items: Vec<NavItem>, icon: Option<(String, bool)>) -> (r: NavItem)
        ensures
            nav_model(r) == NavModel::Dir(name@, nav_models(items@), icon_view(icon), false),
    {
        NavItem::Dir(name.to_owned(), items, icon, false)
    }

    /// A directory entry, open or closed as given.
    pub fn new_dir_open(name: &str, items: Vec<NavItem>, icon: Option<(String, bool)>, open: bool) -> (r: NavItem)
        ensures
            nav_model(r) == NavModel::Dir(name@, nav_models(items@), icon_view(icon), open),
    {
        NavItem::Dir(name.to_owned(), items, icon, open)
    }

    /// The tree root, with an optional section name.
    pub fn new_root(name: Option<&str>, items: Vec<NavItem>) -> (r: NavItem)
        ensures
            nav_model(r) == NavModel::Root(
                match name {
                    Some(n) => Some(n@),
                    None => None,
                },
                nav_models(items@),
            ),
    {
        match name {
            Some(n) => NavItem::Root(Some(n.to_owned()), items),
            None => NavItem::Root(None, items),
        }
    }
}

/// The `onclick` handler of a link: a client-side navigation to its URL.
pub open spec fn spec_onclick(disp: Seq<char>) -> Seq<char> {
    "return navigate('"@ + disp + "')"@
}

/// The icon element of an entry: a feather icon, with the `icon` class and,
/// for variant icons, the `variant` class.
pub open spec fn spec_icon_html(icon: (Seq<char>, bool)) -> HtmlModel {
    HtmlModel::Element {
        tag: "i"@,
        classes: if icon.1 {
            seq!["icon"@, "variant"@]
        } else {
            seq!["icon"@]
        },
        attributes: seq![("data-feather"@, icon.0)],
        children: Seq::empty(),
    }
}

/// The plain chevron icon of collapsible entries.
pub open spec fn spec_chevron() -> HtmlModel {
    HtmlModel::Element {
        tag: "i"@,
        classes: Seq::empty(),
        attributes: seq![("data-feather"@, "chevron-right"@)],
        children: Seq::empty(),
    }
}

/// The rendered sidebar entry: a link becomes an anchor navigating to its
/// absolute URL; a directory becomes a collapsible block holding its
/// children; the root holds its children bare, or under an always-open
/// block when it is named.
pub open spec fn spec_nav_html(n: NavModel, base: Seq<Seq<char>>) -> HtmlModel
    decreases n, 1int, 0int,
{
    match n {
        NavModel::Link(name, url, icon, _subs) => {
            let disp = crate::autolink::url_display(base + url);
            HtmlModel::List {
                list: seq![
                    HtmlModel::Element {
                        tag: "a"@,
                        classes: Seq::empty(),
                        attributes: seq![("onclick"@, spec_onclick(disp)), ("href"@, disp)],
                        children: (match icon {
                            Some(i) => seq![spec_icon_html(i)],
                            None => Seq::empty(),
                        }) + seq![HtmlModel::Text { content: name }],
                    },
                ],
            }
        },
        NavModel::Dir(name, items, icon, open) => HtmlModel::Element {
            tag: "details"@,
            classes: Seq::empty(),
            attributes: if open {
                seq![("open"@, ""@)]
            } else {
                Seq::empty()
            },
            children: seq![
                HtmlModel::Element {
                    tag: "summary"@,
                    classes: Seq::empty(),
                    attributes: Seq::empty(),
                    children: seq![spec_chevron()] + (match icon {
                        Some(i) => seq![spec_icon_html(i)],
                        None => Seq::empty(),
                    }) + seq![HtmlModel::Text { content: name }],
                },
                HtmlModel::Element {
                    tag: "div"@,
                    classes: Seq::empty(),
                    attributes: Seq::empty(),
                    children: spec_nav_htmls(items, base, 0),
                },
            ],
        },
        NavModel::Root(name_opt, items) => match name_opt {
            Some(name) => HtmlModel::Element {
                tag: "details"@,
                classes: Seq::empty(),
                attributes: seq![("open"@, ""@), ("class"@, "root"@)],
                children: seq![
                    HtmlModel::Element {
                        tag: "summary"@,
                        classes: Seq::empty(),
                        attributes: Seq::empty(),
                        children: seq![spec_chevron(), HtmlModel::Text { content: name }],
                    },
                    HtmlModel::Element {
                        tag: "div"@,
                        classes: Seq::empty(),
                        attributes: Seq::empty(),
                        children: spec_nav_htmls(items, base, 0),
                    },
                ],
            },
            None => HtmlModel::List { list: spec_nav_htmls(items, base, 0) },
        },
    }
}

/// The rendered children from index `i` on, in order.
pub open spec fn spec_nav_htmls(ns: Seq<NavModel>, base: Seq<Seq<char>>, i: int) -> Seq<HtmlModel>
    decreases ns, 0int, ns.len() - i when 0 <= i <= ns.len() via spec_nav_htmls_decreases
{
    if i >= ns.len() {
        Seq::empty()
    } else {
        seq![spec_nav_html(ns[i], base)] + spec_nav_htmls(ns, base, i + 1)
    }
}

#[via_fn]
proof fn spec_nav_htmls_decreases(ns: Seq<NavModel>, base: Seq<Seq<char>>, i: int) {
    if 0 <= i < ns.len() {
        vstd::seq::axiom_seq_index_decreases(ns, i);
    }
}

/// The icon element of an entry.
fn icon_html(icon: &(String, bool)) -> (r: Html)
    ensures
        html_model(r) == spec_icon_html((icon.0@, icon.1)),
{
    proof {
        reveal_strlit("icon");
        reveal_strlit("variant");
    }
    let mut e = HtmlElement::new("i").with_attr("data-feather", icon.0.clone()).with_class("icon");
    if icon.1 {
        e = e.with_class("variant");
    }
    let ghost ge = e;
    let r = Html::Element(e);
    proof {
        lemma_html_models_index(ge.children@);
        assert(html_models(ge.children@) =~= Seq::<HtmlModel>::empty());
        assert(attrs_pairs(ge.attributes@) =~~= seq![("data-feather"@, icon.0@)]);
        if icon.1 {
            assert(strs(ge.classes@) =~~= seq!["icon"@, "variant"@]);
        } else {
            assert(strs(ge.classes@) =~~= seq!["icon"@]);
        }
        assert(html_model(r) =~~= spec_icon_html((icon.0@, icon.1)));
    }
    r
}

/// The plain chevron icon.
fn chevron_html() -> (r: Html)
    ensures
        html_model(r) == spec_chevron(),
{
    proof {
        reveal_strlit("chevron-right");
    }
    let e = HtmlElement::new("i").with_attr("data-feather", String::from_str("chevron-right"));
    let ghost ge = e;
    let r = Html::Element(e);
    proof {
        lemma_html_models_index(ge.children@);
        assert(html_models(ge.children@) =~= Seq::<HtmlModel>::empty());
        assert(attrs_pairs(ge.attributes@) =~~= seq![("data-feather"@, "chevron-right"@)]);
        assert(strs(ge.classes@) =~~= Seq::<Seq<char>>::empty());
        assert(html_model(r) =~~= spec_chevron());
    }
    r
}

impl NavItem {
    /// Renders this entry, as [`spec_nav_html`] describes.
    pub fn to_html(&self, config: &Config) -> (r: Html)
        ensures
            html_model(r) == spec_nav_html(
                nav_model(*self),
                crate::linker::spec_base(config.output_url),
            ),
        decreases *self, 1int,
    {
        match self {
            NavItem::Link(name, url, icon, _subs) => {
                let r = link_to_html(name, url, icon, config);
                proof {
                    assert(spec_nav_html(nav_model(*self), crate::linker::spec_base(config.output_url))
                        == spec_nav_html(
                        NavModel::Link(name@, url@, icon_view(*icon), Seq::empty()),
                        crate::linker::spec_base(config.output_url),
                    ));
                }
                r
            },
            NavItem::Dir(name, items, icon, open) => {
                proof {
                    assert(decreases_to!(*self => *items));
                    assert(decreases_to!(*items => items@));
                    assert(nav_model(*self) == NavModel::Dir(
                        name@,
                        nav_models(items@),
                        icon_view(*icon),
                        *open,
                    ));
                }
                dir_to_html(Ghost(nav_model(*self)), name, items, icon, *open, config)
            },
            NavItem::Root(name_opt, items) => {
                proof {
                    assert(decreases_to!(*self => *items));
                    assert(decreases_to!(*items => items@));
                    assert(nav_model(*self) == NavModel::Root(
                        match name_opt {
                            Some(s) => Some(s@),
                            None => None,
                        },
                        nav_models(items@),
                    ));
                }
                root_to_html(Ghost(nav_model(*self)), name_opt, items, config)
            },
        }
    }
}

/// Renders a link entry.
#[verifier::spinoff_prover]
#[verifier::rlimit(100)]
fn link_to_html(name: &String, url: &UrlPath, icon: &Option<(String, bool)>, config: &Config) -> (r: Html)
    ensures
        html_model(r) == spec_nav_html(
            NavModel::Link(name@, url@, icon_view(*icon), Seq::empty()),
            crate::linker::spec_base(config.output_url),
        ),
{
    let ghost base = crate::linker::spec_base(config.output_url);
    let ghost self_model = NavModel::Link(name@, url@, icon_view(*icon), Seq::empty());

                proof {
                    reveal_strlit("return navigate('");
                    reveal_strlit("')");
                    reveal_strlit("onclick");
                    reveal_strlit("href");
                    assert("onclick"@.len() == 7);
                    assert("href"@.len() == 4);
                }
                let abs = url.to_absolute(&config.output_url);
                let disp = abs.to_encoded_string();
                let mut onclick = String::new();
                onclick.append("return navigate('");
                onclick.append(disp.as_str());
                onclick.append("')");
                proof {
                    assert(disp@ =~= crate::autolink::url_display(base + url@));
                    assert(onclick@ =~= spec_onclick(disp@));
                }
                let a0 = HtmlElement::new("a").with_attr("onclick", onclick);
                let ghost ga0 = a0;
                let mut a = a0.with_attr("href", disp.clone());
                proof {
                    assert(attrs_pairs(ga0.attributes@) =~~= seq![
                        ("onclick"@, spec_onclick(crate::autolink::url_display(base + url@))),
                    ]);
                    assert(find_attr_plain(attrs_pairs(ga0.attributes@), "href"@, 1) == 1);
                    assert(find_attr_plain(attrs_pairs(ga0.attributes@), "href"@, 0) == 1);
                }
                match icon {
                    Some(i) => {
                        a = a.with_child(icon_html(i));
                    },
                    None => {},
                }
                let a = a.with_text(name.as_str());
                let ghost ga = a;
                let mut pieces: Vec<Html> = Vec::new();
                pieces.push(Html::Element(a));
                let ghost gp = pieces@;
                let r = Html::List(HtmlList::new(pieces));
                proof {
                    lemma_html_models_index(ga.children@);
                    lemma_html_models_index(gp);
                    assert(attrs_pairs(ga.attributes@) =~~= seq![
                        ("onclick"@, spec_onclick(crate::autolink::url_display(base + url@))),
                        ("href"@, crate::autolink::url_display(base + url@)),
                    ]);
                    assert(strs(ga.classes@) =~~= Seq::<Seq<char>>::empty());
                    match icon {
                        Some(i) => {
                            assert(html_models(ga.children@) =~~= seq![
                                spec_icon_html((i.0@, i.1)),
                                HtmlModel::Text { content: name@ },
                            ]);
                        },
                        None => {
                            assert(html_models(ga.children@) =~~= seq![
                                HtmlModel::Text { content: name@ },
                            ]);
                        },
                    }
                    assert(ga.tag@ == "a"@);
                    let disp_v = crate::autolink::url_display(base + url@);
                    assert(html_models(ga.children@) =~~= (match self_model->Link_2 {
                        Some(i) => seq![spec_icon_html(i)],
                        None => Seq::empty(),
                    }) + seq![HtmlModel::Text { content: name@ }]);
                    assert(strs(ga.classes@) =~~= Seq::<Seq<char>>::empty());
                    assert(attrs_pairs(ga.attributes@) =~~= seq![
                        ("onclick"@, spec_onclick(disp_v)),
                        ("href"@, disp_v),
                    ]);
                    assert(html_model(Html::Element(ga)) =~~= (HtmlModel::Element {
                        tag: "a"@,
                        classes: Seq::empty(),
                        attributes: seq![("onclick"@, spec_onclick(disp_v)), ("href"@, disp_v)],
                        children: (match self_model->Link_2 {
                            Some(i) => seq![spec_icon_html(i)],
                            None => Seq::empty(),
                        }) + seq![HtmlModel::Text { content: name@ }],
                    }));
                    assert(gp[0] == Html::Element(ga));
                    assert(html_model(r)->List_list =~~= spec_nav_html(
                        self_model,
                        base,
                    )->List_list);
                    assert(html_model(r) =~~= spec_nav_html(self_model, base));
                }
                r

}

/// Renders a directory entry.
#[verifier::spinoff_prover]
#[verifier::rlimit(100)]
fn dir_to_html(
    model: Ghost<NavModel>,
    name: &String,
    items: &Vec<NavItem>,
    icon: &Option<(String, bool)>,
    open: bool,
    config: &Config,
) -> (r: Html)
    requires
        model@ == NavModel::Dir(name@, nav_models(items@), icon_view(*icon), open),
    ensures
        html_model(r) == spec_nav_html(
            model@,
            crate::linker::spec_base(config.output_url),
        ),
    decreases items@, 5int,
{
    let ghost base = crate::linker::spec_base(config.output_url);
    let ghost self_model = model@;

                let mut summary = HtmlElement::new("summary").with_child(chevron_html());
                match icon {
                    Some(i) => {
                        summary = summary.with_child(icon_html(i));
                    },
                    None => {},
                }
                let summary = summary.with_text(name.as_str());
                let ghost gsummary = summary;
                let children = nav_children_html(items, config);
                let div = HtmlElement::new("div").with_children(children);
                let ghost gdiv = div;
                proof {
                    reveal_strlit("open");
                    reveal_strlit("");
                }
                let mut details = HtmlElement::new("details");
                if open {
                    details.set_attr("open", String::new());
                }
                let details = details.with_child(Html::Element(summary)).with_child(
                    Html::Element(div),
                );
                let ghost gd = details;
                let r = Html::Element(details);
                proof {
                    lemma_html_models_index(gsummary.children@);
                    lemma_html_models_index(gdiv.children@);
                    lemma_html_models_index(gd.children@);
                    assert(strs(gd.classes@) =~~= Seq::<Seq<char>>::empty());
                    if open {
                        assert(attrs_pairs(gd.attributes@) =~~= seq![("open"@, ""@)]);
                    } else {
                        assert(attrs_pairs(gd.attributes@) =~~= Seq::<
                            (Seq<char>, Seq<char>),
                        >::empty());
                    }
                    assert(strs(gsummary.classes@) =~~= Seq::<Seq<char>>::empty());
                    assert(attrs_pairs(gsummary.attributes@) =~~= Seq::<
                        (Seq<char>, Seq<char>),
                    >::empty());
                    match icon {
                        Some(i) => {
                            assert(html_models(gsummary.children@) =~~= seq![spec_chevron()]
                                + seq![spec_icon_html((i.0@, i.1))] + seq![
                                HtmlModel::Text { content: name@ },
                            ]);
                        },
                        None => {
                            assert(html_models(gsummary.children@) =~~= seq![spec_chevron()]
                                + seq![HtmlModel::Text { content: name@ }]);
                        },
                    }
                    assert(strs(gdiv.classes@) =~~= Seq::<Seq<char>>::empty());
                    assert(attrs_pairs(gdiv.attributes@) =~~= Seq::<
                        (Seq<char>, Seq<char>),
                    >::empty());
                    assert(html_model(r)->Element_tag =~~= spec_nav_html(
                        self_model,
                        base,
                    )->Element_tag);
                    assert(html_model(r)->Element_classes =~~= spec_nav_html(
                        self_model,
                        base,
                    )->Element_classes);
                    assert(html_model(r)->Element_attributes =~~= spec_nav_html(
                        self_model,
                        base,
                    )->Element_attributes);
                    assert(html_model(r)->Element_children =~~= spec_nav_html(
                        self_model,
                        base,
                    )->Element_children);
                    assert(html_model(r) is Element);
                    assert(spec_nav_html(self_model, base) is Element);
                    assert(html_model(r) =~~= spec_nav_html(self_model, base));
                }
                r

}

/// Renders the tree root.
#[verifier::spinoff_prover]
#[verifier::rlimit(100)]
fn root_to_html(
    model: Ghost<NavModel>,
    name_opt: &Option<String>,
    items: &Vec<NavItem>,
    config: &Config,
) -> (r: Html)
    requires
        model@ == NavModel::Root(
            match *name_opt {
                Some(s) => Some(s@),
                None => None,
            },
            nav_models(items@),
        ),
    ensures
        html_model(r) == spec_nav_html(
            model@,
            crate::linker::spec_base(config.output_url),
        ),
    decreases items@, 5int,
{
    let ghost base = crate::linker::spec_base(config.output_url);
    let ghost self_model = model@;

                match name_opt {
                    Some(name) => {
                        proof {
                            reveal_strlit("root");
                            reveal_strlit("open");
                            reveal_strlit("class");
                            reveal_strlit("");
                            assert("open"@.len() == 4);
                            assert("class"@.len() == 5);
                        }
                        let summary = HtmlElement::new("summary").with_child(
                            chevron_html(),
                        ).with_text(name.as_str());
                        let ghost gsummary = summary;
                        let children = nav_children_html(items, config);
                        let div = HtmlElement::new("div").with_children(children);
                        let ghost gdiv = div;
                        let d0 = HtmlElement::new("details").with_attr("open", String::new());
                        let ghost gd0 = d0;
                        let details = d0.with_attr(
                            "class",
                            String::from_str("root"),
                        ).with_child(Html::Element(summary)).with_child(Html::Element(div));
                        proof {
                            assert(attrs_pairs(gd0.attributes@) =~~= seq![("open"@, ""@)]);
                            assert(find_attr_plain(attrs_pairs(gd0.attributes@), "class"@, 1)
                                == 1);
                            assert(find_attr_plain(attrs_pairs(gd0.attributes@), "class"@, 0)
                                == 1);
                        }
                        let ghost gd = details;
                        let r = Html::Element(details);
                        proof {
                            lemma_html_models_index(gsummary.children@);
                            lemma_html_models_index(gdiv.children@);
                            lemma_html_models_index(gd.children@);
                            assert(strs(gd.classes@) =~~= Seq::<Seq<char>>::empty());
                            assert(attrs_pairs(gd.attributes@) =~~= seq![
                                ("open"@, ""@),
                                ("class"@, "root"@),
                            ]);
                            assert(strs(gsummary.classes@) =~~= Seq::<Seq<char>>::empty());
                            assert(attrs_pairs(gsummary.attributes@) =~~= Seq::<
                                (Seq<char>, Seq<char>),
                            >::empty());
                            assert(html_models(gsummary.children@) =~~= seq![
                                spec_chevron(),
                                HtmlModel::Text { content: name@ },
                            ]);
                            assert(strs(gdiv.classes@) =~~= Seq::<Seq<char>>::empty());
                            assert(attrs_pairs(gdiv.attributes@) =~~= Seq::<
                                (Seq<char>, Seq<char>),
                            >::empty());
                            assert(html_model(r)->Element_tag =~~= spec_nav_html(
                                self_model,
                                base,
                            )->Element_tag);
                            assert(html_model(r)->Element_classes =~~= spec_nav_html(
                                self_model,
                                base,
                            )->Element_classes);
                            assert(html_model(r)->Element_attributes =~~= spec_nav_html(
                                self_model,
                                base,
                            )->Element_attributes);
                            assert(html_model(r)->Element_children =~~= spec_nav_html(
                                self_model,
                                base,
                            )->Element_children);
                            assert(html_model(r) is Element);
                            assert(spec_nav_html(self_model, base) is Element);
                            assert(html_model(r) =~~= spec_nav_html(self_model, base));
                        }
                        r
                    },
                    None => {
                        let children = nav_children_html(items, config);
                        let ghost gc = children@;
                        let r = Html::List(HtmlList::new(children));
                        proof {
                            assert(html_model(r) =~~= spec_nav_html(self_model, base));
                        }
                        r
                    },
                }

}


/// Renders a list of sidebar entries, in order.
fn nav_children_html(items: &Vec<NavItem>, config: &Config) -> (r: Vec<Html>)
    ensures
        html_models(r@) == spec_nav_htmls(
            nav_models(items@),
            crate::linker::spec_base(config.output_url),
            0,
        ),
    decreases items@, 0int,
{
    let ghost base = crate::linker::spec_base(config.output_url);
    let ghost models = nav_models(items@);
    let mut out: Vec<Html> = Vec::new();
    let mut i: usize = 0;
    proof {
        lemma_nav_models_index(items@);
        lemma_html_models_index(out@);
    }
    while i < items.len()
        invariant
            i <= items@.len(),
            models == nav_models(items@),
            models.len() == items@.len(),
            base == crate::linker::spec_base(config.output_url),
            out@.len() == i,
            html_models(out@) + spec_nav_htmls(models, base, i as int) == spec_nav_htmls(
                models,
                base,
                0,
            ),
        decreases items@.len() - i,
    {
        proof {
            lemma_nav_models_index(items@);
            vstd::seq::axiom_seq_index_decreases(items@, i as int);
        }
        let piece = items[i].to_html(config);
        let ghost prev = out@;
        out.push(piece);
        i += 1;
        proof {
            lemma_html_models_index(prev);
            lemma_html_models_index(out@);
            assert(html_models(out@) =~~= html_models(prev).push(
                spec_nav_html(models[i - 1], base),
            ));
            assert(html_models(out@) + spec_nav_htmls(models, base, i as int)
                =~~= spec_nav_htmls(models, base, 0));
        }
    }
    proof {
        assert(html_models(out@) =~~= spec_nav_htmls(models, base, 0));
    }
    out
}


/// Lexicographic order on names, by code point.
pub open spec fn str_lt(a: Seq<char>, b: Seq<char>) -> bool
    decreases a.len(),
{
    if b.len() == 0 {
        false
    } else if a.len() == 0 {
        true
    } else if (a.first() as u32) != (b.first() as u32) {
        (a.first() as u32) < (b.first() as u32)
    } else {
        str_lt(a.drop_first(), b.drop_first())
    }
}

/// Code-point equality of names.
pub open spec fn cp_eq(a: Seq<char>, b: Seq<char>) -> bool {
    a.len() == b.len() && forall|i: int|
        0 <= i < a.len() ==> ((#[trigger] a[i]) as u32) == (b[i] as u32)
}

/// The sidebar order on a namespace's entries: namespaces first, then
/// everything else, each group ordered by name.
pub open spec fn nav_le(x: crate::symbol::Symbol, y: crate::symbol::Symbol) -> bool {
    let xn = !(x.kind is Namespace);
    let yn = !(y.kind is Namespace);
    (!xn && yn) || (xn == yn && (str_lt(x.name@, y.name@) || cp_eq(x.name@, y.name@)))
}

/// Whether the entries stand in sidebar order.
pub open spec fn nav_sorted(es: Seq<crate::symbol::Symbol>) -> bool {
    forall|i: int, j: int| 0 <= i < j < es.len() ==> nav_le(#[trigger] es[i], #[trigger] es[j])
}

/// Lexicographic comparison of two names.
fn str_lt_exec(a: &str, b: &str) -> (r: bool)
    ensures
        r == str_lt(a@, b@),
{
    let an = a.unicode_len();
    let bn = b.unicode_len();
    let mut i: usize = 0;
    proof {
        assert(a@.skip(0) =~= a@);
        assert(b@.skip(0) =~= b@);
    }
    loop
        invariant_except_break
            i <= an,
            i <= bn,
            an == a@.len(),
            bn == b@.len(),
            str_lt(a@, b@) == str_lt(a@.skip(i as int), b@.skip(i as int)),
        ensures
            i <= an,
            i <= bn,
            an == a@.len(),
            bn == b@.len(),
            str_lt(a@, b@) == str_lt(a@.skip(i as int), b@.skip(i as int)),
            (i >= an || i >= bn) || (a@[i as int] as u32) != (b@[i as int] as u32),
        decreases an - i,
    {
        if i >= bn || i >= an {
            break;
        }
        let ca = a.get_char(i);
        let cb = b.get_char(i);
        if (ca as u32) != (cb as u32) {
            proof {
                assert(a@.skip(i as int)[0] == a@[i as int]);
                assert(b@.skip(i as int)[0] == b@[i as int]);
            }
            break;
        }
        proof {
            assert(a@.skip(i as int).first() == a@[i as int]);
            assert(b@.skip(i as int).first() == b@[i as int]);
            assert(a@.skip(i as int).drop_first() =~= a@.skip(i + 1));
            assert(b@.skip(i as int).drop_first() =~= b@.skip(i + 1));
        }
        i += 1;
    }
    if i >= bn {
        proof {
            assert(b@.skip(i as int).len() == 0);
        }
        false
    } else if i >= an {
        proof {
            assert(a@.skip(i as int).len() == 0);
            assert(b@.skip(i as int).len() > 0);
        }
        true
    } else {
        let ca = a.get_char(i);
        let cb = b.get_char(i);
        proof {
            assert(a@.skip(i as int).first() == a@[i as int]);
            assert(b@.skip(i as int).first() == b@[i as int]);
        }
        (ca as u32) < (cb as u32)
    }
}

/// Code-point equality of two names.
fn cp_eq_exec(a: &str, b: &str) -> (r: bool)
    ensures
        r == cp_eq(a@, b@),
{
    let an = a.unicode_len();
    let bn = b.unicode_len();
    if an != bn {
        return false;
    }
    let mut i: usize = 0;
    while i < an
        invariant
            i <= an,
            an == a@.len(),
            an == b@.len(),
            forall|k: int| 0 <= k < i ==> ((#[trigger] a@[k]) as u32) == (b@[k] as u32),
        decreases an - i,
    {
        if (a.get_char(i) as u32) != (b.get_char(i) as u32) {
            return false;
        }
        i += 1;
    }
    true
}

/// Whether the first name comes at or before the second: strictly before,
/// or code-point equal.
pub fn str_le_exec(a: &str, b: &str) -> (r: bool)
    ensures
        r == (str_lt(a@, b@) || cp_eq(a@, b@)),
{
    str_lt_exec(a, b) || cp_eq_exec(a, b)
}

/// Whether the first entry comes at or before the second in sidebar order.
fn nav_le_exec(x: &crate::symbol::Symbol, y: &crate::symbol::Symbol) -> (r: bool)
    ensures
        r == nav_le(*x, *y),
{
    let xn = !matches!(x.kind, crate::symbol::SymbolKind::Namespace);
    let yn = !matches!(y.kind, crate::symbol::SymbolKind::Namespace);
    if !xn && yn {
        true
    } else if xn == yn {
        str_lt_exec(x.name.as_str(), y.name.as_str()) || cp_eq_exec(
            x.name.as_str(),
            y.name.as_str(),
        )
    } else {
        false
    }
}

/// The names are totally ordered: two names always compare one way.
pub proof fn lemma_str_lt_total(a: Seq<char>, b: Seq<char>)
    ensures
        str_lt(a, b) || str_lt(b, a) || cp_eq(a, b),
    decreases a.len(),
{
    if a.len() == 0 && b.len() == 0 {
        assert(cp_eq(a, b));
    } else if a.len() == 0 {
        assert(str_lt(a, b));
    } else if b.len() == 0 {
        assert(str_lt(b, a));
    } else if (a.first() as u32) != (b.first() as u32) {
    } else {
        lemma_str_lt_total(a.drop_first(), b.drop_first());
        if cp_eq(a.drop_first(), b.drop_first()) {
            assert forall|k: int| 0 <= k < a.len() implies ((#[trigger] a[k]) as u32) == (
            b[k] as u32) by {
                if k > 0 {
                    assert(a.drop_first()[k - 1] == a[k]);
                    assert(b.drop_first()[k - 1] == b[k]);
                    assert((a.drop_first()[k - 1] as u32) == (b.drop_first()[k - 1] as u32));
                }
            }
            assert(cp_eq(a, b));
        }
    }
}

/// The sidebar order is total.
pub proof fn lemma_nav_le_total(x: crate::symbol::Symbol, y: crate::symbol::Symbol)
    ensures
        nav_le(x, y) || nav_le(y, x),
{
    lemma_str_lt_total(x.name@, y.name@);
}

/// Substitution: code-point-equal names compare alike against any third.
pub proof fn lemma_cp_eq_str_lt(a: Seq<char>, b: Seq<char>, c: Seq<char>)
    requires
        cp_eq(a, b),
    ensures
        str_lt(a, c) == str_lt(b, c),
        str_lt(c, a) == str_lt(c, b),
    decreases a.len() + c.len(),
{
    if a.len() > 0 && c.len() > 0 {
        assert((a[0] as u32) == (b[0] as u32));
        assert(forall|k: int|
            0 <= k < a.drop_first().len() ==> ((#[trigger] a.drop_first()[k]) as u32) == (
            b.drop_first()[k] as u32)) by {
            assert(forall|k: int|
                0 <= k < a.drop_first().len() ==> a.drop_first()[k] == a[k + 1]
                    && b.drop_first()[k] == b[k + 1]);
        }
        assert(cp_eq(a.drop_first(), b.drop_first()));
        lemma_cp_eq_str_lt(a.drop_first(), b.drop_first(), c.drop_first());
    }
}

/// Name order is transitive.
pub proof fn lemma_str_lt_trans(a: Seq<char>, b: Seq<char>, c: Seq<char>)
    requires
        str_lt(a, b) || cp_eq(a, b),
        str_lt(b, c) || cp_eq(b, c),
    ensures
        str_lt(a, c) || cp_eq(a, c),
    decreases a.len() + b.len() + c.len(),
{
    if cp_eq(a, b) {
        lemma_cp_eq_str_lt(b, a, c);
        if cp_eq(b, c) {
            assert(cp_eq(a, c));
        }
    } else if cp_eq(b, c) {
        lemma_cp_eq_str_lt(b, c, a);
    } else if c.len() == 0 {
        assert(!str_lt(b, c));
    } else if a.len() == 0 {
        assert(str_lt(a, c));
    } else {
        assert(b.len() > 0);
        if (a.first() as u32) != (b.first() as u32) {
            if (b.first() as u32) != (c.first() as u32) {
                assert((a.first() as u32) < (c.first() as u32));
            } else {
                assert((a.first() as u32) < (c.first() as u32));
            }
        } else {
            if (b.first() as u32) != (c.first() as u32) {
                assert((a.first() as u32) < (c.first() as u32));
            } else {
                lemma_str_lt_trans(a.drop_first(), b.drop_first(), c.drop_first());
                if cp_eq(a.drop_first(), c.drop_first()) {
                    assert forall|k: int| 0 <= k < a.len() implies ((#[trigger] a[k]) as u32)
                        == (c[k] as u32) by {
                        if k > 0 {
                            assert(a.drop_first()[k - 1] == a[k]);
                            assert(c.drop_first()[k - 1] == c[k]);
                            assert((a.drop_first()[k - 1] as u32) == (
                            c.drop_first()[k - 1] as u32));
                        }
                    }
                    assert(cp_eq(a, c));
                }
            }
        }
    }
}

/// The sidebar order is transitive.
pub proof fn lemma_nav_le_trans(
    x: crate::symbol::Symbol,
    y: crate::symbol::Symbol,
    z: crate::symbol::Symbol,
)
    requires
        nav_le(x, y),
        nav_le(y, z),
    ensures
        nav_le(x, z),
{
    let xn = !(x.kind is Namespace);
    let yn = !(y.kind is Namespace);
    let zn = !(z.kind is Namespace);
    if xn == yn && yn == zn {
        lemma_str_lt_trans(x.name@, y.name@, z.name@);
    }
}

/// The entries rearranged into sidebar order: the same entries, namespaces
/// first, each group ordered by name.
pub fn sorted_entries(entries: Vec<crate::symbol::Symbol>) -> (r: Vec<crate::symbol::Symbol>)
    ensures
        nav_sorted(r@),
        r@.to_multiset() == entries@.to_multiset(),
{
    let mut input = entries;
    let ghost all = input@;
    let mut out: Vec<crate::symbol::Symbol> = Vec::new();
    proof {
        assert(out@.to_multiset().add(input@.to_multiset()) =~= all.to_multiset());
    }
    while input.len() > 0
        invariant
            nav_sorted(out@),
            out@.to_multiset().add(input@.to_multiset()) == all.to_multiset(),
        decreases input@.len(),
    {
        let ghost input_pre = input@;
        let x = input.remove(0);
        proof {
            input_pre.to_multiset_ensures();
            assert(input_pre.remove(0).to_multiset() =~= input_pre.to_multiset().remove(
                input_pre[0],
            ));
            assert(input@ == input_pre.remove(0));
        }
        let mut j: usize = 0;
        while j < out.len() && nav_le_exec(&out[j], &x)
            invariant
                j <= out@.len(),
                nav_sorted(out@),
                forall|k: int| 0 <= k < j ==> nav_le(#[trigger] out@[k], x),
            decreases out@.len() - j,
        {
            j += 1;
        }
        proof {
            if j < out@.len() {
                lemma_nav_le_total(out@[j as int], x);
                assert(nav_le(x, out@[j as int]));
            }
        }
        let ghost prev = out@;
        out.insert(j, x);
        proof {
            assert(forall|k: int| 0 <= k < j ==> out@[k] == prev[k]);
            assert(out@[j as int] == x);
            assert(forall|k: int| j < k < out@.len() ==> out@[k] == prev[k - 1]);
            assert forall|k1: int, k2: int|
                0 <= k1 < k2 < out@.len() implies nav_le(
                #[trigger] out@[k1],
                #[trigger] out@[k2],
            ) by {
                if k2 == j {
                    assert(out@[k1] == prev[k1]);
                } else if k1 == j {
                    assert(out@[k2] == prev[k2 - 1]);
                    if k2 - 1 > j {
                        assert(nav_le(prev[j as int], prev[k2 - 1]));
                        lemma_nav_le_trans(x, prev[j as int], prev[k2 - 1]);
                    }
                } else if k1 < j && j < k2 {
                    assert(out@[k1] == prev[k1] && out@[k2] == prev[k2 - 1]);
                } else if k2 < j {
                    assert(out@[k1] == prev[k1] && out@[k2] == prev[k2]);
                } else {
                    assert(out@[k1] == prev[k1 - 1] && out@[k2] == prev[k2 - 1]);
                }
            }
            out@.to_multiset_ensures();
            prev.to_multiset_ensures();
            input_pre.to_multiset_ensures();
            assert(out@.remove(j as int) =~= prev);
            assert(out@.remove(j as int).to_multiset() =~= out@.to_multiset().remove(x));
            assert(out@.contains(x)) by {
                assert(out@[j as int] == x);
            }
            assert(out@.to_multiset().count(x) > 0);
            assert(out@.to_multiset() =~= prev.to_multiset().insert(x));
            assert(input_pre.contains(input_pre[0])) by {
                assert(input_pre[0] == input_pre[0]);
            }
            assert(input_pre.to_multiset().count(input_pre[0]) > 0);
            assert(x == input_pre[0]);
            assert(input@.to_multiset() =~= input_pre.to_multiset().remove(x));
            assert forall|e: crate::symbol::Symbol|
                out@.to_multiset().add(input@.to_multiset()).count(e) == all.to_multiset().count(
                e,
            ) by {
                assert(prev.to_multiset().add(input_pre.to_multiset()).count(e)
                    == all.to_multiset().count(e));
                assert(out@.to_multiset().count(e) == prev.to_multiset().insert(x).count(e));
                assert(input@.to_multiset().count(e) == input_pre.to_multiset().remove(x).count(
                    e,
                ));
            }
            assert(out@.to_multiset().add(input@.to_multiset()) =~= all.to_multiset());
        }
    }
    proof {
        assert(input@ =~= Seq::<crate::symbol::Symbol>::empty());
        input@.to_multiset_ensures();
        assert(input@.to_multiset() =~= Multiset::<crate::symbol::Symbol>::empty()) by {
            input@.to_multiset_ensures();
            assert(input@.to_multiset().len() == 0);
        }
        assert(out@.to_multiset() =~= all.to_multiset());
    }
    out
}

/// The sidebar icon of a symbol kind: a folder-like box for types, a code
/// glyph for functions, nothing for namespaces (which become directories).
pub open spec fn spec_symbol_icon(kind: crate::symbol::SymbolKind) -> Option<(Seq<char>, bool)> {
    match kind {
        crate::symbol::SymbolKind::Namespace => None,
        crate::symbol::SymbolKind::Class => Some(("box"@, false)),
        crate::symbol::SymbolKind::Struct => Some(("box"@, true)),
        crate::symbol::SymbolKind::Function => Some(("code"@, true)),
    }
}

/// The sidebar entry of a symbol: a namespace becomes a closed directory
/// holding its children's entries in order; anything else becomes a link to
/// its category-prefixed page, with its kind's icon.
pub open spec fn spec_symbol_nav(sym: crate::symbol::Symbol, prefix: Seq<Seq<char>>) -> NavModel
    decreases sym, 1int, 0int,
{
    let quals = prefix.push(sym.name@);
    match sym.kind {
        crate::symbol::SymbolKind::Namespace => NavModel::Dir(
            sym.name@,
            spec_symbol_navs(sym.entries@, quals, 0),
            None,
            false,
        ),
        _ => NavModel::Link(
            sym.name@,
            seq![crate::linker::category_seg(sym.kind)] + crate::url_path::clean_segs(quals),
            spec_symbol_icon(sym.kind),
            Seq::empty(),
        ),
    }
}

/// The sidebar entries of the symbols from index `i` on, in order.
pub open spec fn spec_symbol_navs(
    syms: Seq<crate::symbol::Symbol>,
    prefix: Seq<Seq<char>>,
    i: int,
) -> Seq<NavModel>
    decreases syms, 0int, syms.len() - i when 0 <= i <= syms.len() via spec_symbol_navs_decreases
{
    if i >= syms.len() {
        Seq::empty()
    } else {
        seq![spec_symbol_nav(syms[i], prefix)] + spec_symbol_navs(syms, prefix, i + 1)
    }
}

#[via_fn]
proof fn spec_symbol_navs_decreases(
    syms: Seq<crate::symbol::Symbol>,
    prefix: Seq<Seq<char>>,
    i: int,
) {
    if 0 <= i < syms.len() {
        vstd::seq::axiom_seq_index_decreases(syms, i);
    }
}

/// The sidebar entry of one symbol, as [`spec_symbol_nav`] describes.
pub fn symbol_nav(sym: &crate::symbol::Symbol, prefix: &Vec<String>) -> (r: NavItem)
    ensures
        nav_model(r) == spec_symbol_nav(*sym, crate::url_path::segs_view(prefix@)),
    decreases *sym, 1int,
{
    let ghost pv = crate::url_path::segs_view(prefix@);
    let mut quals: Vec<String> = Vec::new();
    let mut i: usize = 0;
    while i < prefix.len()
        invariant
            i <= prefix@.len(),
            quals@.len() == i,
            crate::url_path::segs_view(quals@) == crate::url_path::segs_view(prefix@).take(
                i as int,
            ),
        decreases prefix@.len() - i,
    {
        quals.push(prefix[i].clone());
        i += 1;
        proof {
            assert(crate::url_path::segs_view(quals@) =~~= crate::url_path::segs_view(
                prefix@,
            ).take(i as int));
        }
    }
    proof {
        assert(crate::url_path::segs_view(prefix@).take(prefix@.len() as int)
            =~= crate::url_path::segs_view(prefix@));
    }
    let ghost qprev = quals@;
    quals.push(sym.name.clone());
    proof {
        assert(crate::url_path::segs_view(quals@) =~~= pv.push(sym.name@));
    }
    if matches!(sym.kind, crate::symbol::SymbolKind::Namespace) {
        proof {
            assert(decreases_to!(*sym => sym.entries));
            assert(decreases_to!(sym.entries => sym.entries@));
        }
        let items = symbol_navs(&sym.entries, &quals);
        let r = NavItem::new_dir(sym.name.as_str(), items, None);
        proof {
            assert(nav_model(r) =~~= spec_symbol_nav(*sym, pv));
        }
        r
    } else {
        let url = crate::linker::rel_docs_url(sym.kind, &quals);
        proof {
            reveal_strlit("box");
            reveal_strlit("code");
        }
        let icon: Option<(String, bool)> = match sym.kind {
            crate::symbol::SymbolKind::Class => Some((String::from_str("box"), false)),
            crate::symbol::SymbolKind::Struct => Some((String::from_str("box"), true)),
            _ => Some((String::from_str("code"), true)),
        };
        let r = NavItem::new_link(sym.name.as_str(), url, icon, Vec::new());
        proof {
            assert(sub_models(Seq::<SubItem>::empty()) =~= Seq::<SubModel>::empty());
            assert(nav_model(r) =~~= spec_symbol_nav(*sym, pv));
        }
        r
    }
}

/// The sidebar entries of a list of symbols, in order.
pub fn symbol_navs(syms: &Vec<crate::symbol::Symbol>, prefix: &Vec<String>) -> (r: Vec<NavItem>)
    ensures
        nav_models(r@) == spec_symbol_navs(
            syms@,
            crate::url_path::segs_view(prefix@),
            0,
        ),
    decreases syms@, 0int,
{
    let ghost pv = crate::url_path::segs_view(prefix@);
    let mut out: Vec<NavItem> = Vec::new();
    let mut i: usize = 0;
    proof {
        lemma_nav_models_index(out@);
    }
    while i < syms.len()
        invariant
            i <= syms@.len(),
            out@.len() == i,
            pv == crate::url_path::segs_view(prefix@),
            nav_models(out@) + spec_symbol_navs(syms@, pv, i as int) == spec_symbol_navs(
                syms@,
                pv,
                0,
            ),
        decreases syms@.len() - i,
    {
        proof {
            vstd::seq::axiom_seq_index_decreases(syms@, i as int);
        }
        let item = symbol_nav(&syms[i], prefix);
        let ghost prev = out@;
        out.push(item);
        i += 1;
        proof {
            lemma_nav_models_index(prev);
            lemma_nav_models_index(out@);
            assert(nav_models(out@) =~~= nav_models(prev).push(spec_symbol_nav(
                syms@[i - 1],
                pv,
            )));
            assert(nav_models(out@) + spec_symbol_navs(syms@, pv, i as int)
                =~~= spec_symbol_navs(syms@, pv, 0));
        }
    }
    proof {
        assert(nav_models(out@) =~~= spec_symbol_navs(syms@, pv, 0));
    }
    out
}

} // verus!
