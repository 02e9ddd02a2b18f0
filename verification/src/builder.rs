//! The build orchestrator's decisions: the one-time navigation cache, page
//! rendering through the template engine, and fail-fast aggregation of the
//! concurrently executed page tasks.
//!
//! The navigation markup is identical on every page of one build, so it is
//! rendered exactly once, before any page task starts, and read from the
//! cache for the rest of the run. Each page's rendering is pure; the
//! surrounding program schedules one task per page, performs the writes, and
//! hands the collected outcomes back for aggregation, where the first
//! failure decides the build's result.

use vstd::prelude::*;

use crate::config::Config;
use crate::symbol::Symbol;
use crate::url_path::UrlPath;

verus! {

/// What `strfmt::strfmt` yields for a template and variable map: the
/// substituted text, or nothing when the template cannot be formatted with
/// these variables.
pub uninterp spec fn spec_strfmt(template: Seq<char>, vars: Map<Seq<char>, Seq<char>>) -> Option<
    Seq<char>,
>;

/// The variable map a list of pairs builds up: a later pair overrides an
/// earlier one with the same key.
pub open spec fn pairs_map(v: Seq<(String, String)>) -> Map<Seq<char>, Seq<char>>
    decreases v.len(),
{
    if v.len() == 0 {
        Map::empty()
    } else {
        pairs_map(v.drop_last()).insert(v.last().0@, v.last().1@)
    }
}

/// Relies on strfmt::strfmt: template substitution is a function of the
/// template and the variable map alone.
#[verifier::external_body]
fn strfmt_vars(template: &str, vars: &Vec<(String, String)>) -> (r: Option<String>)
    ensures
        r is Some <==> spec_strfmt(template@, pairs_map(vars@)) is Some,
        r is Some ==> r->0@ == spec_strfmt(template@, pairs_map(vars@))->0,
{
    let map: std::collections::HashMap<String, String> = vars.iter().cloned().collect();
    strfmt::strfmt(template, &map).ok()
}

/// The default template variables of every page: the project's name,
/// version and repository, the icon markup, and the output base URL.
pub open spec fn spec_default_format(config: Config) -> Seq<(Seq<char>, Seq<char>)> {
    seq![
        ("project_name"@, config.project.name@),
        ("project_version"@, config.project.version@),
        (
            "project_repository"@,
            match config.project.repository {
                Some(r) => r@,
                None => Seq::empty(),
            },
        ),
        (
            "project_icon"@,
            match config.project.icon {
                Some(i) => "<img src=\""@ + base_display(config) + "/icon.png\">"@,
                None => Seq::empty(),
            },
        ),
        ("output_url"@, base_display(config)),
    ]
}

/// The display form of the configured output base URL.
pub open spec fn base_display(config: Config) -> Seq<char> {
    crate::autolink::url_display(crate::linker::spec_base(config.output_url))
}

/// The views of a vector of variable pairs.
pub open spec fn vars_view(v: Seq<(String, String)>) -> Seq<(Seq<char>, Seq<char>)> {
    Seq::new(v.len(), |i: int| (v[i].0@, v[i].1@))
}

/// The display string of the configured output base URL.
fn base_display_exec(config: &Config) -> (r: String)
    ensures
        r@ == base_display(*config),
{
    match &config.output_url {
        Some(b) => b.to_encoded_string(),
        None => {
            let empty = UrlPath::new();
            let r = empty.to_encoded_string();
            proof {
                assert(crate::url_path::encoded_segs(Seq::<Seq<char>>::empty())
                    =~= Seq::<Seq<char>>::empty());
            }
            r
        },
    }
}

/// The default template variables of every page.
pub fn default_format(config: &Config) -> (r: Vec<(String, String)>)
    ensures
        vars_view(r@) == spec_default_format(*config),
{
    proof {
        reveal_strlit("project_name");
        reveal_strlit("project_version");
        reveal_strlit("project_repository");
        reveal_strlit("project_icon");
        reveal_strlit("output_url");
        reveal_strlit("<img src=\"");
        reveal_strlit("/icon.png\">");
    }
    let mut out: Vec<(String, String)> = Vec::new();
    out.push((String::from_str("project_name"), config.project.name.clone()));
    out.push((String::from_str("project_version"), config.project.version.clone()));
    let repo = match &config.project.repository {
        Some(r) => r.clone(),
        None => String::new(),
    };
    out.push((String::from_str("project_repository"), repo));
    let icon = match &config.project.icon {
        Some(_i) => {
            let mut s = String::new();
            s.append("<img src=\"");
            let b = base_display_exec(config);
            s.append(b.as_str());
            s.append("/icon.png\">");
            s
        },
        None => String::new(),
    };
    out.push((String::from_str("project_icon"), icon));
    out.push((String::from_str("output_url"), base_display_exec(config)));
    proof {
        assert(vars_view(out@) =~~= spec_default_format(*config));
    }
    out
}

/// The page title: the project's documentation name, prefixed with the
/// page's own name when it has one.
pub open spec fn spec_page_title(name: Seq<char>, project: Seq<char>) -> Seq<char> {
    if name.len() == 0 {
        project + " Docs"@
    } else {
        name + " - "@ + project + " Docs"@
    }
}

/// The page title, as [`spec_page_title`] describes.
pub fn page_title(name: &str, project: &str) -> (r: String)
    ensures
        r@ == spec_page_title(name@, project@),
{
    proof {
        reveal_strlit(" Docs");
        reveal_strlit(" - ");
    }
    let mut out = String::new();
    if !name.is_empty() {
        out.append(name);
        out.append(" - ");
    }
    out.append(project);
    out.append(" Docs");
    proof {
        assert(out@ =~= spec_page_title(name@, project@));
    }
    out
}

/// The page metadata document: a JSON object holding the title and
/// description.
pub open spec fn spec_metadata_json(title: Seq<char>, description: Seq<char>) -> Seq<char> {
    "{\"title\": \""@ + title + "\", \"description\": \""@ + description + "\"}"@
}

/// The page metadata document, as [`spec_metadata_json`] describes.
pub fn metadata_json(title: &str, description: &str) -> (r: String)
    ensures
        r@ == spec_metadata_json(title@, description@),
{
    proof {
        reveal_strlit("{\"title\": \"");
        reveal_strlit("\", \"description\": \"");
        reveal_strlit("\"}");
    }
    let mut out = String::new();
    out.append("{\"title\": \"");
    out.append(title);
    out.append("\", \"description\": \"");
    out.append(description);
    out.append("\"}");
    proof {
        assert(out@ =~= spec_metadata_json(title@, description@));
    }
    out
}

/// The rendered artifacts of one page: what the surrounding program writes
/// into the page's output directory.
pub struct RenderedPage {
    /// The full page markup, for `index.html`.
    pub index_html: String,
    /// The body-only markup, for `content.html`.
    pub content_html: String,
    /// The page metadata, for `metadata.json`.
    pub metadata_json: String,
}

/// The navigation variables joined with the defaults for the nav template.
pub open spec fn spec_nav_vars(
    config: Config,
    tutorial_content: Seq<char>,
    entity_content: Seq<char>,
    file_content: Seq<char>,
) -> Seq<(Seq<char>, Seq<char>)> {
    spec_default_format(config) + seq![
        ("tutorial_content"@, tutorial_content),
        ("entity_content"@, entity_content),
        ("file_content"@, file_content),
    ]
}

/// The navigation markup of a build: the nav template formatted with the
/// defaults and the three sidebar content blocks.
pub open spec fn spec_nav(
    config: Config,
    tutorial_content: Seq<char>,
    entity_content: Seq<char>,
    file_content: Seq<char>,
) -> Option<Seq<char>> {
    spec_strfmt(
        config.templates.nav@,
        pairs_map_of(spec_nav_vars(config, tutorial_content, entity_content, file_content)),
    )
}

/// The variable map of a sequence of view-level pairs.
pub open spec fn pairs_map_of(v: Seq<(Seq<char>, Seq<char>)>) -> Map<Seq<char>, Seq<char>>
    decreases v.len(),
{
    if v.len() == 0 {
        Map::empty()
    } else {
        pairs_map_of(v.drop_last()).insert(v.last().0, v.last().1)
    }
}

/// The two pair-map constructions agree on view-equal pairs.
pub proof fn lemma_pairs_map_of_view(v: Seq<(String, String)>)
    ensures
        pairs_map(v) == pairs_map_of(vars_view(v)),
    decreases v.len(),
{
    if v.len() == 0 {
        assert(vars_view(v).len() == 0);
    } else {
        lemma_pairs_map_of_view(v.drop_last());
        assert(vars_view(v).drop_last() =~= vars_view(v.drop_last()));
        assert(vars_view(v).last() == (v.last().0@, v.last().1@));
    }
}

/// The build orchestrator: the shared configuration, the symbol graph root,
/// and the one-time navigation cache. The cache follows an
/// establish-then-freeze pattern: written once before any page task exists,
/// then only read.
pub struct Builder {
    pub config: Config,
    pub root: Symbol,
    pub nav_cache: Option<String>,
}

impl Builder {
    /// The cached navigation markup.
    pub open spec fn nav_cache_view(&self) -> Option<Seq<char>> {
        match self.nav_cache {
            Some(s) => Some(s@),
            None => None,
        }
    }

    /// A fresh orchestrator with nothing cached yet.
    pub fn new(config: Config, root: Symbol) -> (r: Builder)
        ensures
            r.config == config,
            r.root == root,
            r.nav_cache_view() is None,
    {
        Builder { config, root, nav_cache: None }
    }

    /// Renders and caches the navigation markup, exactly once, before any
    /// page task is scheduled. Fails only when the nav template cannot be
    /// formatted.
    pub fn prebuild_nav(
        &mut self,
        tutorial_content: &String,
        entity_content: &String,
        file_content: &String,
    ) -> (r: Result<(), String>)
        ensures
            final(self).config == old(self).config,
            final(self).root == old(self).root,
            ({
                let nav = spec_nav(
                    old(self).config,
                    tutorial_content@,
                    entity_content@,
                    file_content@,
                );
                match r {
                    Ok(_) => nav is Some && final(self).nav_cache_view() == Some(nav->0),
                    Err(_) => nav is None && final(self).nav_cache_view() == old(
                        self,
                    ).nav_cache_view(),
                }
            }),
    {
        proof {
            reveal_strlit("tutorial_content");
            reveal_strlit("entity_content");
            reveal_strlit("file_content");
            reveal_strlit("Unable to format navbar");
        }
        let mut vars = default_format(&self.config);
        vars.push((String::from_str("tutorial_content"), tutorial_content.clone()));
        vars.push((String::from_str("entity_content"), entity_content.clone()));
        vars.push((String::from_str("file_content"), file_content.clone()));
        proof {
            lemma_pairs_map_of_view(vars@);
            assert(vars_view(vars@) =~~= spec_nav_vars(
                self.config,
                tutorial_content@,
                entity_content@,
                file_content@,
            ));
        }
        match strfmt_vars(self.config.templates.nav.as_str(), &vars) {
            Some(nav) => {
                self.nav_cache = Some(nav);
                Ok(())
            },
            None => Err(String::from_str("Unable to format navbar")),
        }
    }

    /// The cached navigation markup. Every page of one build reads the
    /// identical string: the cache is written once, before any page task
    /// runs, and never recomputed between pages.
    pub fn build_nav(&self) -> (r: Result<String, String>)
        requires
            self.nav_cache_view() is Some,
        ensures
            r is Ok && r->Ok_0@ == self.nav_cache_view()->0,
    {
        match &self.nav_cache {
            Some(nav) => Ok(nav.clone()),
            None => {
                proof {
                    assert(false);
                }
                Err(String::new())
            },
        }
    }
}

/// Two pages rendered in the same build observe the identical cached
/// navigation markup: each page's nav string equals the one cached value,
/// so any two of them are the same string, with no recomputation between
/// them.
pub proof fn lemma_nav_cache_shared(b: Builder, nav1: Seq<char>, nav2: Seq<char>)
    requires
        b.nav_cache_view() is Some,
        nav1 == b.nav_cache_view()->0,
        nav2 == b.nav_cache_view()->0,
    ensures
        nav1 == nav2,
{
}

/// The first error among the collected task results, if any.
pub open spec fn spec_first_err(results: Seq<Result<String, String>>, i: int) -> Option<Seq<char>>
    decreases results.len() - i when 0 <= i <= results.len()
{
    if i >= results.len() {
        None
    } else {
        match results[i] {
            Err(e) => Some(e@),
            Ok(_) => spec_first_err(results, i + 1),
        }
    }
}

pub proof fn lemma_spec_first_err_some(results: Seq<Result<String, String>>, i: int, k: int)
    requires
        0 <= i <= k < results.len(),
        results[k] is Err,
    ensures
        spec_first_err(results, i) is Some,
    decreases k - i,
{
    if i < k && !(results[i] is Err) {
        lemma_spec_first_err_some(results, i + 1, k);
    }
}

/// Aggregates the outcomes of every scheduled page task, fail fast: the
/// first failure encountered is the overall build failure; with none, the
/// build succeeded. Already-collected sibling successes do not rescue a
/// failed build.
pub fn aggregate_results(results: &Vec<Result<String, String>>) -> (r: Result<(), String>)
    ensures
        match spec_first_err(results@, 0) {
            None => r is Ok,
            Some(e) => r is Err && r->Err_0@ == e,
        },
{
    let mut i: usize = 0;
    while i < results.len()
        invariant
            i <= results@.len(),
            spec_first_err(results@, 0) == spec_first_err(results@, i as int),
        decreases results@.len() - i,
    {
        match &results[i] {
            Err(e) => {
                return Err(e.clone());
            },
            Ok(_) => {},
        }
        i += 1;
    }
    Ok(())
}

/// If any one of the scheduled tasks failed, the aggregate build result is
/// an error.
pub proof fn lemma_fail_fast(results: Seq<Result<String, String>>, k: int)
    requires
        0 <= k < results.len(),
        results[k] is Err,
    ensures
        spec_first_err(results, 0) is Some,
{
    lemma_spec_first_err_some(results, 0, k);
}

/// The rendered artifacts of one page, as the template pipeline
/// produces them: the content template is formatted with the default
/// variables, the page's URL, title, description and fragment variables;
/// the full page wraps the formatted head, the cached nav and the content;
/// the metadata document holds the title and description.
pub open spec fn spec_render_page(
    config: Config,
    nav: Seq<char>,
    name: Seq<char>,
    description: Seq<char>,
    url_display: Seq<char>,
    template: Seq<char>,
    vars: Seq<(Seq<char>, Seq<char>)>,
) -> Option<(Seq<char>, Seq<char>, Seq<char>)> {
    let title = spec_page_title(name, config.project.name@);
    let fmt = spec_default_format(config) + seq![
        ("page_url"@, url_display),
        ("page_title"@, title),
        ("page_description"@, description),
    ] + vars;
    match spec_strfmt(template, pairs_map_of(fmt)) {
        None => None,
        Some(content) => {
            match spec_strfmt(config.templates.head@, pairs_map_of(fmt)) {
                None => None,
                Some(head) => {
                    let page_fmt = spec_default_format(config) + seq![
                        ("head_content"@, head),
                        ("navbar_content"@, nav),
                        ("main_content"@, content),
                    ];
                    match spec_strfmt(config.templates.page@, pairs_map_of(page_fmt)) {
                        None => None,
                        Some(page) => Some(
                            (page, content, spec_metadata_json(title, description)),
                        ),
                    }
                },
            }
        },
    }
}

/// Renders one page, as [`spec_render_page`] describes; an error reports
/// the page URL that could not be formatted.
pub fn render_page(
    config: &Config,
    nav: &String,
    name: &String,
    description: &String,
    url_display: &String,
    template: &String,
    vars: Vec<(String, String)>,
) -> (r: Result<RenderedPage, String>)
    ensures
        ({
            let spec = spec_render_page(
                *config,
                nav@,
                name@,
                description@,
                url_display@,
                template@,
                vars_view(vars@),
            );
            match r {
                Ok(page) => spec is Some && ({
                    let parts = spec->0;
                    page.index_html@ == parts.0 && page.content_html@ == parts.1
                        && page.metadata_json@ == parts.2
                }),
                Err(e) => spec is None && e@ == "Unable to format "@ + url_display@,
            }
        }),
{
    proof {
        reveal_strlit("page_url");
        reveal_strlit("page_title");
        reveal_strlit("page_description");
        reveal_strlit("head_content");
        reveal_strlit("navbar_content");
        reveal_strlit("main_content");
        reveal_strlit("Unable to format ");
    }
    let title = page_title(name.as_str(), config.project.name.as_str());
    let mut fmt = default_format(config);
    fmt.push((String::from_str("page_url"), url_display.clone()));
    fmt.push((String::from_str("page_title"), title.clone()));
    fmt.push((String::from_str("page_description"), description.clone()));
    let mut vars = vars;
    let ghost pre = fmt@;
    let ghost target = spec_default_format(*config) + seq![
        ("page_url"@, url_display@),
        ("page_title"@, spec_page_title(name@, config.project.name@)),
        ("page_description"@, description@),
    ] + vars_view(vars@);
    while vars.len() > 0
        invariant
            vars_view(fmt@) + vars_view(vars@) == target,
        decreases vars@.len(),
    {
        let v = vars.remove(0);
        let ghost gv = v;
        fmt.push(v);
        proof {
            assert(vars_view(fmt@) =~~= vars_view(fmt@.drop_last()).push((gv.0@, gv.1@)));
            assert(vars_view(vars@.insert(0, gv)) =~~= seq![(gv.0@, gv.1@)] + vars_view(vars@));
            assert(vars_view(fmt@) + vars_view(vars@) =~~= target);
        }
    }
    proof {
        assert(vars_view(vars@).len() == 0);
        assert(vars_view(fmt@) =~~= target);
        lemma_pairs_map_of_view(fmt@);
    }
    let content = match strfmt_vars(template.as_str(), &fmt) {
        Some(c) => c,
        None => {
            return Err(format_error(url_display));
        },
    };
    let head = match strfmt_vars(config.templates.head.as_str(), &fmt) {
        Some(h) => h,
        None => {
            return Err(format_error(url_display));
        },
    };
    let mut page_fmt = default_format(config);
    page_fmt.push((String::from_str("head_content"), head));
    page_fmt.push((String::from_str("navbar_content"), nav.clone()));
    page_fmt.push((String::from_str("main_content"), content.clone()));
    proof {
        lemma_pairs_map_of_view(page_fmt@);
        assert(vars_view(page_fmt@) =~~= spec_default_format(*config) + seq![
            ("head_content"@, spec_strfmt(config.templates.head@, pairs_map_of(target))->0),
            ("navbar_content"@, nav@),
            ("main_content"@, spec_strfmt(template@, pairs_map_of(target))->0),
        ]);
    }
    let page = match strfmt_vars(config.templates.page.as_str(), &page_fmt) {
        Some(p) => p,
        None => {
            return Err(format_error(url_display));
        },
    };
    let meta = metadata_json(title.as_str(), description.as_str());
    Ok(RenderedPage { index_html: page, content_html: content, metadata_json: meta })
}

/// The error reported for a page whose template could not be formatted.
fn format_error(url_display: &String) -> (r: String)
    ensures
        r@ == "Unable to format "@ + url_display@,
{
    proof {
        reveal_strlit("Unable to format ");
    }
    let mut out = String::new();
    out.append("Unable to format ");
    out.append(url_display.as_str());
    out
}

} // verus!
