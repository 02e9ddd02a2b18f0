//! The immutable build configuration: project identity, source roots, and
//! input/output locations. Loaded by the surrounding program, then shared
//! read-only by every component of a build.

use vstd::prelude::*;

use crate::url_path::UrlPath;

verus! {

/// The documented project: name, version, and optional links.
pub struct Project {
    pub name: String,
    pub version: String,
    pub repository: Option<String>,
    /// Base URL of the online source tree, for "view source" links.
    pub tree: Option<String>,
    pub icon: Option<String>,
}

/// One configured source root: a directory of headers to document, with the
/// files and directories its include patterns matched, and an optional
/// prefix stripped from displayed include paths.
pub struct Source {
    pub name: String,
    pub dir: UrlPath,
    pub include_files: Vec<UrlPath>,
    pub include_dirs: Vec<UrlPath>,
    pub strip_include_prefix: Option<UrlPath>,
}

impl Source {
    /// The prefix stripped from displayed include paths; without one
    /// configured, the empty path.
    pub fn include_prefix(&self) -> (r: UrlPath)
        ensures
            match self.strip_include_prefix {
                Some(p) => r@ == p@,
                None => r@ == Seq::<Seq<char>>::empty(),
            },
    {
        match &self.strip_include_prefix {
            Some(p) => p.duplicate(),
            None => UrlPath::new(),
        }
    }
}

/// The page templates, read once at configuration time.
pub struct Templates {
    pub class_template: String,
    pub struct_template: String,
    pub function_template: String,
    pub index_template: String,
    pub head: String,
    pub nav: String,
    pub file_template: String,
    pub page: String,
    pub tutorial_template: String,
    pub tutorial_index: String,
}

/// The whole build configuration.
pub struct Config {
    pub project: Project,
    pub sources: Vec<Source>,
    pub templates: Templates,
    pub input_dir: UrlPath,
    pub output_dir: UrlPath,
    pub output_url: Option<UrlPath>,
    pub compile_args: Vec<String>,
}

/// The views of a sequence of paths.
pub open spec fn paths_view(v: Seq<UrlPath>) -> Seq<Seq<Seq<char>>> {
    Seq::new(v.len(), |i: int| v[i]@)
}

/// The include files of each source, in order, as one flat sequence of path
/// views.
pub open spec fn spec_all_includes(sources: Seq<Source>, i: int) -> Seq<Seq<Seq<char>>>
    decreases sources.len() - i when 0 <= i <= sources.len()
{
    if i >= sources.len() {
        Seq::empty()
    } else {
        paths_view(sources[i].include_files@) + spec_all_includes(sources, i + 1)
    }
}

impl Config {
    /// Every include file of every source root, in configuration order.
    pub fn all_includes(&self) -> (r: Vec<UrlPath>)
        ensures
            paths_view(r@) == spec_all_includes(self.sources@, 0),
    {
        let mut out: Vec<UrlPath> = Vec::new();
        let mut i: usize = 0;
        proof {
            assert(paths_view(out@) + spec_all_includes(self.sources@, 0) =~~= spec_all_includes(
                self.sources@,
                0,
            ));
        }
        while i < self.sources.len()
            invariant
                i <= self.sources@.len(),
                paths_view(out@) + spec_all_includes(self.sources@, i as int)
                    == spec_all_includes(self.sources@, 0),
            decreases self.sources@.len() - i,
        {
            let ghost oldout = paths_view(out@);
            let src = &self.sources[i];
            let mut j: usize = 0;
            while j < src.include_files.len()
                invariant
                    j <= src.include_files@.len(),
                    src == self.sources@[i as int],
                    out@.len() == oldout.len() + j,
                    paths_view(out@) == oldout + paths_view(src.include_files@).take(j as int),
                decreases src.include_files@.len() - j,
            {
                let ghost prev = out@;
                out.push(src.include_files[j].duplicate());
                j += 1;
                proof {
                    assert(forall|k: int|
                        0 <= k < prev.len() ==> #[trigger] paths_view(prev)[k] == prev[k]@);
                    assert(paths_view(out@) =~~= paths_view(prev).push(
                        out@[prev.len() as int]@,
                    ));
                    assert(paths_view(src.include_files@)[j - 1] == src.include_files@[j - 1]@);
                    assert(paths_view(out@) =~~= oldout + paths_view(
                        src.include_files@,
                    ).take(j as int));
                }
            }
            i += 1;
            proof {
                assert(paths_view(src.include_files@).take(src.include_files@.len() as int)
                    =~~= paths_view(src.include_files@));
                assert(paths_view(out@) + spec_all_includes(self.sources@, i as int)
                    =~~= spec_all_includes(self.sources@, 0));
            }
        }
        proof {
            assert(paths_view(out@) =~~= spec_all_includes(self.sources@, 0));
        }
        out
    }
}

/// The path of the site stylesheet inside the output directory.
pub fn get_css_path(config: &Config) -> (r: UrlPath)
    ensures
        r@ == config.output_dir@ + seq!["style.css"@],
{
    proof {
        reveal_strlit("style.css");
        assert("style.css"@.len() == 9);
        assert("style.css"@ != crate::url_path::dot_seg());
        assert("style.css"@ != crate::url_path::dotdot_seg());
    }
    let tail = UrlPath::from_segment("style.css");
    config.output_dir.join(&tail)
}

} // verus!
