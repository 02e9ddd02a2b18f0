//! The linker: canonical URLs, header include paths and online source links
//! derived from a symbol's kind, qualified name and defining file.
//!
//! A symbol whose outermost qualifier is the standard library's namespace is
//! redirected to the external reference site and never gets an internal
//! page.

use vstd::prelude::*;

use crate::config::Config;
use crate::symbol::SymbolKind;
use crate::url_path::clean_segs;
use crate::url_path::segs_view;
use crate::url_path::split_slash;
use crate::url_path::string_eq;
use crate::url_path::UrlPath;

verus! {

/// The category segment that prefixes a symbol's documentation URL.
pub open spec fn category_seg(kind: SymbolKind) -> Seq<char> {
    match kind {
        SymbolKind::Namespace => "namespace"@,
        SymbolKind::Class => "class"@,
        SymbolKind::Struct => "struct"@,
        SymbolKind::Function => "function"@,
    }
}

/// The category prefix of a symbol's documentation URL.
pub fn docs_category(kind: SymbolKind) -> (r: UrlPath)
    ensures
        r@ == seq![category_seg(kind)],
{
    match kind {
        SymbolKind::Namespace => {
            proof {
                reveal_strlit("namespace");
                assert("namespace"@.len() == 9);
                assert("namespace"@ != crate::url_path::dot_seg());
                assert("namespace"@ != crate::url_path::dotdot_seg());
            }
            UrlPath::from_segment("namespace")
        },
        SymbolKind::Class => {
            proof {
                reveal_strlit("class");
                assert("class"@.len() == 5);
                assert("class"@ != crate::url_path::dot_seg());
                assert("class"@ != crate::url_path::dotdot_seg());
            }
            UrlPath::from_segment("class")
        },
        SymbolKind::Struct => {
            proof {
                reveal_strlit("struct");
                assert("struct"@.len() == 6);
                assert("struct"@ != crate::url_path::dot_seg());
                assert("struct"@ != crate::url_path::dotdot_seg());
            }
            UrlPath::from_segment("struct")
        },
        SymbolKind::Function => {
            proof {
                reveal_strlit("function");
                assert("function"@.len() == 8);
                assert("function"@ != crate::url_path::dot_seg());
                assert("function"@ != crate::url_path::dotdot_seg());
            }
            UrlPath::from_segment("function")
        },
    }
}

/// A path from the given name components, normalized.
pub fn path_from_names(names: &Vec<String>) -> (r: UrlPath)
    ensures
        r@ == clean_segs(segs_view(names@)),
{
    let mut cloned: Vec<String> = Vec::new();
    let mut i: usize = 0;
    proof {
        assert(segs_view(cloned@) =~~= segs_view(names@).take(0));
    }
    while i < names.len()
        invariant
            i <= names@.len(),
            cloned@.len() == i,
            segs_view(cloned@) == segs_view(names@).take(i as int),
        decreases names@.len() - i,
    {
        cloned.push(names[i].clone());
        i += 1;
        proof {
            assert(segs_view(cloned@) =~~= segs_view(names@).take(i as int));
        }
    }
    proof {
        assert(segs_view(cloned@) =~~= segs_view(names@));
    }
    UrlPath::new_with_path(cloned)
}

/// The category-prefixed relative documentation URL of a symbol with the
/// given qualified name.
pub fn rel_docs_url(kind: SymbolKind, qualified: &Vec<String>) -> (r: UrlPath)
    ensures
        r@ == seq![category_seg(kind)] + clean_segs(segs_view(qualified@)),
{
    let cat = docs_category(kind);
    let tail = path_from_names(qualified);
    cat.join(&tail)
}

/// The absolute documentation URL of a symbol: within the standard library's
/// namespace, the external reference site, built from the defining file's
/// name and the symbol's own name (nothing without a defining file);
/// otherwise the category-prefixed URL under the configured output base.
pub open spec fn spec_abs_docs_url(
    kind: SymbolKind,
    quals: Seq<Seq<char>>,
    file: Option<Seq<char>>,
    base: Seq<Seq<char>>,
) -> Option<Seq<Seq<char>>> {
    if quals.len() > 0 && quals[0] == "std"@ {
        match file {
            None => None,
            Some(f) => {
                let parts = clean_segs(split_slash(f, 0));
                if parts.len() == 0 {
                    None
                } else {
                    Some(
                        clean_segs(
                            seq!["en.cppreference.com"@, "w"@, "cpp"@, parts.last(), quals.last()],
                        ),
                    )
                }
            },
        }
    } else {
        Some(base + seq![category_seg(kind)] + clean_segs(quals))
    }
}

/// The configured output base: the output URL, or the root.
pub open spec fn spec_base(output_url: Option<UrlPath>) -> Seq<Seq<char>> {
    match output_url {
        Some(b) => b@,
        None => Seq::empty(),
    }
}

/// The absolute documentation URL of a symbol, as
/// [`spec_abs_docs_url`] describes it.
pub fn abs_docs_url(
    kind: SymbolKind,
    qualified: &Vec<String>,
    file: &Option<String>,
    config: &Config,
) -> (r: Option<UrlPath>)
    ensures
        match r {
            Some(u) => spec_abs_docs_url(
                kind,
                segs_view(qualified@),
                match file {
                    Some(f) => Some(f@),
                    None => None,
                },
                spec_base(config.output_url),
            ) == Some(u@),
            None => spec_abs_docs_url(
                kind,
                segs_view(qualified@),
                match file {
                    Some(f) => Some(f@),
                    None => None,
                },
                spec_base(config.output_url),
            ) is None,
        },
{
    let is_std = if qualified.len() > 0 {
        let first = &qualified[0];
        proof {
            reveal_strlit("std");
            assert("std"@.len() == 3);
        }
        let r = str_eq_str(first.as_str(), "std");
        proof {
            assert(segs_view(qualified@)[0] == qualified@[0]@);
        }
        r
    } else {
        false
    };
    if is_std {
        match file {
            None => None,
            Some(f) => {
                let fpath = match UrlPath::parse(f.as_str()) {
                    Ok(p) => p,
                    Err(_) => {
                        return None;
                    },
                };
                match fpath.raw_file_name() {
                    None => None,
                    Some(fname) => {
                        let name = qualified[qualified.len() - 1].clone();
                        let mut parts: Vec<String> = Vec::new();
                        proof {
                            reveal_strlit("en.cppreference.com");
                            reveal_strlit("w");
                            reveal_strlit("cpp");
                        }
                        parts.push(String::from_str("en.cppreference.com"));
                        parts.push(String::from_str("w"));
                        parts.push(String::from_str("cpp"));
                        parts.push(fname);
                        parts.push(name);
                        let r = UrlPath::new_with_path(parts);
                        proof {
                            assert(segs_view(parts@) =~~= seq![
                                "en.cppreference.com"@,
                                "w"@,
                                "cpp"@,
                                clean_segs(split_slash(f@, 0)).last(),
                                segs_view(qualified@).last(),
                            ]);
                        }
                        Some(r)
                    },
                }
            },
        }
    } else {
        let rel = rel_docs_url(kind, qualified);
        let r = rel.to_absolute(&config.output_url);
        proof {
            if qualified@.len() > 0 {
                assert(segs_view(qualified@)[0] == qualified@[0]@);
            }
        }
        Some(r)
    }
}

/// The logical header path of a defining file: the file's path with the
/// configured input directory stripped.
pub fn header_of(file: &str, config: &Config) -> (r: UrlPath)
    ensures
        ({
            let parsed = clean_segs(split_slash(file@, 0));
            if config.input_dir@.is_prefix_of(parsed) {
                r@ == parsed.skip(config.input_dir@.len() as int)
            } else {
                r@ == parsed
            }
        }),
{
    let parsed = match UrlPath::parse(file) {
        Ok(p) => p,
        Err(_) => UrlPath::new(),
    };
    parsed.strip_prefix(&config.input_dir)
}

/// The first configured source root whose directory contains the header, if
/// any.
pub open spec fn spec_source_for(sources: Seq<crate::config::Source>, header: Seq<Seq<char>>, i: int) -> int
    decreases sources.len() - i when 0 <= i <= sources.len()
{
    if i >= sources.len() {
        sources.len() as int
    } else if sources[i].dir@.is_prefix_of(header) {
        i
    } else {
        spec_source_for(sources, header, i + 1)
    }
}

pub proof fn lemma_spec_source_for_bounds(
    sources: Seq<crate::config::Source>,
    header: Seq<Seq<char>>,
    i: int,
)
    requires
        0 <= i <= sources.len(),
    ensures
        i <= spec_source_for(sources, header, i) <= sources.len(),
        spec_source_for(sources, header, i) < sources.len() ==> sources[spec_source_for(
            sources,
            header,
            i,
        )].dir@.is_prefix_of(header),
    decreases sources.len() - i,
{
    if i < sources.len() && !sources[i].dir@.is_prefix_of(header) {
        lemma_spec_source_for_bounds(sources, header, i + 1);
    }
}

/// The source root containing the header, as an index into the configured
/// sources; nothing when the file belongs to no configured root.
pub fn config_source_for(header: &UrlPath, config: &Config) -> (r: Option<usize>)
    ensures
        ({
            let i = spec_source_for(config.sources@, header@, 0);
            if i < config.sources@.len() {
                r == Some(i as usize)
            } else {
                r is None
            }
        }),
{
    let mut i: usize = 0;
    while i < config.sources.len()
        invariant
            i <= config.sources@.len(),
            spec_source_for(config.sources@, header@, 0) == spec_source_for(
                config.sources@,
                header@,
                i as int,
            ),
        decreases config.sources@.len() - i,
    {
        if header.starts_with(&config.sources[i].dir) {
            return Some(i);
        }
        i += 1;
    }
    None
}

/// The displayed include path of a defining file: its header path with the
/// containing source root's directory stripped; nothing when no configured
/// root contains it.
pub fn include_path(file: &str, config: &Config) -> (r: Option<UrlPath>)
    ensures
        ({
            let parsed = clean_segs(split_slash(file@, 0));
            let header = if config.input_dir@.is_prefix_of(parsed) {
                parsed.skip(config.input_dir@.len() as int)
            } else {
                parsed
            };
            let i = spec_source_for(config.sources@, header, 0);
            if i < config.sources@.len() {
                r is Some && r->0@ == header.skip(config.sources@[i].dir@.len() as int)
            } else {
                r is None
            }
        }),
{
    let header = header_of(file, config);
    let n = config.sources.len();
    proof {
        assert(n == config.sources@.len());
    }
    match config_source_for(&header, config) {
        None => None,
        Some(i) => {
            proof {
                lemma_spec_source_for_bounds(config.sources@, header@, 0);
                assert(i as int == spec_source_for(config.sources@, header@, 0));
                assert(config.sources@[i as int].dir@.is_prefix_of(header@));
            }
            let stripped = header.strip_prefix(&config.sources[i].dir);
            proof {
                assert(stripped@ == header@.skip(config.sources@[i as int].dir@.len() as int));
            }
            Some(stripped)
        },
    }
}

/// Whether two string slices hold the same characters.
pub fn str_eq_str(a: &str, b: &str) -> (r: bool)
    ensures
        r == (a@ == b@),
{
    let an = a.unicode_len();
    let bn = b.unicode_len();
    if an != bn {
        return false;
    }
    let mut i: usize = 0;
    while i < an
        invariant
            an == a@.len(),
            an == b@.len(),
            i <= an,
            a@.take(i as int) == b@.take(i as int),
        decreases an - i,
    {
        if a.get_char(i) != b.get_char(i) {
            proof {
                assert(a@[i as int] != b@[i as int]);
            }
            return false;
        }
        i += 1;
        proof {
            assert(a@.take(i as int) =~= b@.take(i as int));
        }
    }
    proof {
        assert(a@.take(an as int) =~= a@);
        assert(b@.take(an as int) =~= b@);
    }
    true
}

} // verus!
