//! The physical file tree: one node per included source file or directory,
//! mirroring the on-disk layout for the per-file listing pages.

use vstd::prelude::*;

use crate::config::Config;
use crate::nav::NavItem;
use crate::nav::NavModel;
use crate::nav::nav_model;
use crate::nav::sub_models;
use crate::url_path::UrlPath;
use crate::url_path::clean_segs;
use crate::url_path::segs_view;

verus! {

broadcast use vstd::std_specs::vec::axiom_vec_decreases_to_view, vstd::seq::axiom_seq_index_decreases;

/// One included source file, under the source root it came from.
pub struct File {
    /// The index of the owning source root in the configuration.
    pub source: usize,
    /// The file's path under its source root.
    pub path: UrlPath,
}

/// One directory of included source files.
pub struct Dir {
    /// The index of the owning source root in the configuration.
    pub source: usize,
    /// The directory's path under its source root.
    pub path: UrlPath,
    /// Subdirectories, in insertion order, names unique.
    pub dirs: Vec<Dir>,
    /// Files, in insertion order, names unique.
    pub files: Vec<File>,
}

/// One configured source root with its directory tree.
pub struct Root {
    pub source: usize,
    pub dir: Dir,
}

/// The model of a file node.
#[verifier::ext_equal]
pub struct FileModel {
    pub source: int,
    pub path: Seq<Seq<char>>,
}

/// The model of a directory node.
#[verifier::ext_equal]
pub struct DirModel {
    pub source: int,
    pub path: Seq<Seq<char>>,
    pub dirs: Seq<DirModel>,
    pub files: Seq<FileModel>,
}

/// The model of a file node.
pub open spec fn file_model(f: File) -> FileModel {
    FileModel { source: f.source as int, path: f.path@ }
}

/// The models of a vector of file nodes.
pub open spec fn file_models(fs: Seq<File>) -> Seq<FileModel> {
    Seq::new(fs.len(), |i: int| file_model(fs[i]))
}

/// The model of a directory node.
pub open spec fn dir_model(d: Dir) -> DirModel
    decreases d via dir_model_decreases
{
    DirModel {
        source: d.source as int,
        path: d.path@,
        dirs: dir_models(d.dirs@),
        files: file_models(d.files@),
    }
}

#[via_fn]
proof fn dir_model_decreases(d: Dir) {
    assert(decreases_to!(d => d.dirs));
    assert(decreases_to!(d.dirs => d.dirs@));
}

/// The models of a sequence of directory nodes.
pub open spec fn dir_models(ds: Seq<Dir>) -> Seq<DirModel>
    decreases ds, ds.len(),
{
    if ds.len() == 0 {
        Seq::empty()
    } else {
        seq![dir_model(ds[0])] + dir_models(ds.drop_first())
    }
}

/// The models of a sequence of directory nodes, element by element.
pub proof fn lemma_dir_models_index(ds: Seq<Dir>)
    ensures
        dir_models(ds).len() == ds.len(),
        forall|i: int| 0 <= i < ds.len() ==> dir_models(ds)[i] == dir_model(ds[i]),
    decreases ds.len(),
{
    if ds.len() > 0 {
        lemma_dir_models_index(ds.drop_first());
    }
}

impl File {
    /// A file node.
    pub fn new(source: usize, path: UrlPath) -> (r: File)
        ensures
            file_model(r) == (FileModel { source: source as int, path: path@ }),
    {
        File { source, path }
    }

    /// The file's display name: its last path segment.
    pub fn name(&self) -> (r: Option<String>)
        ensures
            self.path@.len() == 0 ==> r is None,
            self.path@.len() > 0 ==> r is Some && r->0@ == self.path@.last(),
    {
        self.path.raw_file_name()
    }

    /// The file's page URL: its path under the file-listing prefix.
    pub fn url(&self) -> (r: UrlPath)
        ensures
            r@ == seq!["files"@] + self.path@,
    {
        proof {
            reveal_strlit("files");
            assert("files"@.len() == 5);
            assert("files"@ != crate::url_path::dot_seg());
            assert("files"@ != crate::url_path::dotdot_seg());
        }
        UrlPath::from_segment("files").join(&self.path)
    }

    /// The file's sidebar entry: a link with the file icon; an unnamed file
    /// (the root path) gets an empty label.
    pub fn nav(&self) -> (r: NavItem)
        ensures
            nav_model(r) == NavModel::Link(
                if self.path@.len() > 0 {
                    self.path@.last()
                } else {
                    Seq::empty()
                },
                seq!["files"@] + self.path@,
                Some(("file"@, false)),
                Seq::empty(),
            ),
    {
        proof {
            reveal_strlit("file");
        }
        let name = match self.name() {
            Some(n) => n,
            None => String::new(),
        };
        let r = NavItem::new_link(
            name.as_str(),
            self.url(),
            Some((String::from_str("file"), false)),
            Vec::new(),
        );
        proof {
            assert(sub_models(Seq::empty()) =~= Seq::empty());
        }
        r
    }
}

impl Dir {
    /// An empty directory node.
    pub fn new(source: usize, path: UrlPath) -> (r: Dir)
        ensures
            dir_model(r) == (DirModel {
                source: source as int,
                path: path@,
                dirs: Seq::empty(),
                files: Seq::empty(),
            }),
    {
        let r = Dir { source, path, dirs: Vec::new(), files: Vec::new() };
        proof {
            assert(dir_model(r).dirs =~= Seq::<DirModel>::empty());
            assert(dir_model(r).files =~= Seq::<FileModel>::empty());
            assert(dir_model(r) =~~= (DirModel {
                source: source as int,
                path: r.path@,
                dirs: Seq::empty(),
                files: Seq::empty(),
            }));
        }
        r
    }
}

/// The first index at or after `i` of a subdirectory whose last path
/// segment is the name, or the length when there is none.
pub open spec fn find_dir(ds: Seq<DirModel>, name: Seq<char>, i: int) -> int
    decreases ds.len() - i when 0 <= i <= ds.len()
{
    if i >= ds.len() {
        ds.len() as int
    } else if ds[i].path.len() > 0 && ds[i].path.last() == name {
        i
    } else {
        find_dir(ds, name, i + 1)
    }
}

pub proof fn lemma_find_dir_bounds(ds: Seq<DirModel>, name: Seq<char>, i: int)
    requires
        0 <= i <= ds.len(),
    ensures
        i <= find_dir(ds, name, i) <= ds.len(),
        find_dir(ds, name, i) < ds.len() ==> ds[find_dir(ds, name, i)].path.len() > 0 && ds[
            find_dir(ds, name, i)
        ].path.last() == name,
    decreases ds.len() - i,
{
    if i < ds.len() && !(ds[i].path.len() > 0 && ds[i].path.last() == name) {
        lemma_find_dir_bounds(ds, name, i + 1);
    }
}

/// The directory tree with the chain of the given path segments present:
/// each segment descends into the matching subdirectory, creating a new
/// empty one (under the parent's path) when it is missing.
pub open spec fn spec_add_dirs(d: DirModel, parts: Seq<Seq<char>>, i: int) -> DirModel
    decreases parts.len() - i when 0 <= i <= parts.len()
{
    if i >= parts.len() {
        d
    } else {
        let name = parts[i];
        let j = find_dir(d.dirs, name, 0);
        if j < d.dirs.len() {
            DirModel {
                source: d.source,
                path: d.path,
                dirs: d.dirs.update(j, spec_add_dirs(d.dirs[j], parts, i + 1)),
                files: d.files,
            }
        } else {
            let child = DirModel {
                source: d.source,
                path: d.path + clean_segs(seq![name]),
                dirs: Seq::empty(),
                files: Seq::empty(),
            };
            DirModel {
                source: d.source,
                path: d.path,
                dirs: d.dirs.push(spec_add_dirs(child, parts, i + 1)),
                files: d.files,
            }
        }
    }
}

/// The directory tree with the file inserted into the directory named by
/// the path segments, every missing directory on the way created.
pub open spec fn spec_add_file(d: DirModel, parts: Seq<Seq<char>>, i: int, f: FileModel) -> DirModel
    decreases parts.len() - i when 0 <= i <= parts.len()
{
    if i >= parts.len() {
        DirModel { source: d.source, path: d.path, dirs: d.dirs, files: d.files.push(f) }
    } else {
        let name = parts[i];
        let j = find_dir(d.dirs, name, 0);
        if j < d.dirs.len() {
            DirModel {
                source: d.source,
                path: d.path,
                dirs: d.dirs.update(j, spec_add_file(d.dirs[j], parts, i + 1, f)),
                files: d.files,
            }
        } else {
            let child = DirModel {
                source: d.source,
                path: d.path + clean_segs(seq![name]),
                dirs: Seq::empty(),
                files: Seq::empty(),
            };
            DirModel {
                source: d.source,
                path: d.path,
                dirs: d.dirs.push(spec_add_file(child, parts, i + 1, f)),
                files: d.files,
            }
        }
    }
}

/// Finds the first subdirectory with the given name.
fn find_dir_exec(dirs: &Vec<Dir>, name: &String) -> (r: usize)
    ensures
        r == find_dir(dir_models(dirs@), name@, 0),
{
    let ghost models = dir_models(dirs@);
    let mut j: usize = 0;
    proof {
        lemma_dir_models_index(dirs@);
    }
    while j < dirs.len()
        invariant
            j <= dirs@.len(),
            models == dir_models(dirs@),
            models.len() == dirs@.len(),
            find_dir(models, name@, 0) == find_dir(models, name@, j as int),
        decreases dirs@.len() - j,
    {
        proof {
            lemma_dir_models_index(dirs@);
        }
        let matched = match dirs[j].path.raw_file_name() {
            Some(n) => crate::url_path::string_eq(&n, name),
            None => false,
        };
        if matched {
            proof {
                assert(models[j as int].path.last() == name@);
            }
            return j;
        }
        proof {
            assert(!(models[j as int].path.len() > 0 && models[j as int].path.last() == name@));
        }
        j += 1;
    }
    j
}

/// Descends into the chain of path segments, creating what is missing, as
/// [`spec_add_dirs`] describes.
fn add_dirs_rec(d: Dir, parts: &Vec<String>, i: usize) -> (r: Dir)
    requires
        i <= parts@.len(),
    ensures
        dir_model(r) == spec_add_dirs(dir_model(d), segs_view(parts@), i as int),
    decreases parts@.len() - i,
{
    if i >= parts.len() {
        return d;
    }
    let mut d = d;
    let ghost dm = dir_model(d);
    let name = &parts[i];
    let j = find_dir_exec(&d.dirs, name);
    proof {
        lemma_find_dir_bounds(dir_models(d.dirs@), name@, 0);
        lemma_dir_models_index(d.dirs@);
    }
    if j < d.dirs.len() {
        let child = d.dirs.remove(j);
        proof {
            assert(dir_model(child) == dm.dirs[j as int]);
        }
        let grown = add_dirs_rec(child, parts, i + 1);
        d.dirs.insert(j, grown);
        proof {
            lemma_dir_models_index(d.dirs@);
            assert(dir_models(d.dirs@) =~~= dm.dirs.update(
                j as int,
                spec_add_dirs(dm.dirs[j as int], segs_view(parts@), i + 1),
            ));
            assert(dir_model(d) =~~= spec_add_dirs(dm, segs_view(parts@), i as int));
        }
        d
    } else {
        let mut single_parts: Vec<String> = Vec::new();
        single_parts.push(name.clone());
        proof {
            assert(segs_view(single_parts@) =~~= seq![name@]);
        }
        let child_path = d.path.join(&UrlPath::new_with_path(single_parts));
        let child = Dir::new(d.source, child_path);
        let ghost cm = dir_model(child);
        let grown = add_dirs_rec(child, parts, i + 1);
        d.dirs.push(grown);
        proof {
            lemma_dir_models_index(d.dirs@);
            assert(cm.path =~~= dm.path + clean_segs(seq![name@]));
            assert(cm =~~= (DirModel {
                source: dm.source,
                path: dm.path + clean_segs(seq![name@]),
                dirs: Seq::empty(),
                files: Seq::empty(),
            }));
            assert(dir_models(d.dirs@) =~~= dm.dirs.push(
                spec_add_dirs(cm, segs_view(parts@), i + 1),
            ));
            assert(dir_model(d) =~~= spec_add_dirs(dm, segs_view(parts@), i as int));
        }
        d
    }
}

/// Inserts a file at the end of the chain of path segments, creating what
/// is missing, as [`spec_add_file`] describes.
fn add_file_rec(d: Dir, parts: &Vec<String>, i: usize, f: File) -> (r: Dir)
    requires
        i <= parts@.len(),
    ensures
        dir_model(r) == spec_add_file(dir_model(d), segs_view(parts@), i as int, file_model(f)),
    decreases parts@.len() - i,
{
    let mut d = d;
    let ghost dm = dir_model(d);
    if i >= parts.len() {
        d.files.push(f);
        proof {
            assert(file_models(d.files@) =~~= dm.files.push(file_model(f)));
            assert(dir_model(d) =~~= spec_add_file(
                dm,
                segs_view(parts@),
                i as int,
                file_model(f),
            ));
        }
        return d;
    }
    let name = &parts[i];
    let j = find_dir_exec(&d.dirs, name);
    proof {
        lemma_find_dir_bounds(dir_models(d.dirs@), name@, 0);
        lemma_dir_models_index(d.dirs@);
    }
    if j < d.dirs.len() {
        let child = d.dirs.remove(j);
        proof {
            assert(dir_model(child) == dm.dirs[j as int]);
        }
        let grown = add_file_rec(child, parts, i + 1, f);
        d.dirs.insert(j, grown);
        proof {
            lemma_dir_models_index(d.dirs@);
            assert(dir_models(d.dirs@) =~~= dm.dirs.update(
                j as int,
                spec_add_file(dm.dirs[j as int], segs_view(parts@), i + 1, file_model(f)),
            ));
            assert(dir_model(d) =~~= spec_add_file(
                dm,
                segs_view(parts@),
                i as int,
                file_model(f),
            ));
        }
        d
    } else {
        let mut single_parts: Vec<String> = Vec::new();
        single_parts.push(name.clone());
        proof {
            assert(segs_view(single_parts@) =~~= seq![name@]);
        }
        let child_path = d.path.join(&UrlPath::new_with_path(single_parts));
        let child = Dir::new(d.source, child_path);
        let ghost cm = dir_model(child);
        let grown = add_file_rec(child, parts, i + 1, f);
        d.dirs.push(grown);
        proof {
            lemma_dir_models_index(d.dirs@);
            assert(cm.path =~~= dm.path + clean_segs(seq![name@]));
            assert(cm =~~= (DirModel {
                source: dm.source,
                path: dm.path + clean_segs(seq![name@]),
                dirs: Seq::empty(),
                files: Seq::empty(),
            }));
            assert(dir_models(d.dirs@) =~~= dm.dirs.push(
                spec_add_file(cm, segs_view(parts@), i + 1, file_model(f)),
            ));
            assert(dir_model(d) =~~= spec_add_file(
                dm,
                segs_view(parts@),
                i as int,
                file_model(f),
            ));
        }
        d
    }
}

impl Root {
    /// Grows the chain of directories named by the path under this root.
    pub fn add_dirs(self, parts: &Vec<String>) -> (r: Root)
        ensures
            r.source == self.source,
            dir_model(r.dir) == spec_add_dirs(dir_model(self.dir), segs_view(parts@), 0),
    {
        let Root { source, dir } = self;
        Root { source, dir: add_dirs_rec(dir, parts, 0) }
    }

    /// Inserts a file into the directory named by the path under this
    /// root, creating missing directories on the way.
    pub fn try_add_dirs(self, parts: &Vec<String>, file: File) -> (r: Root)
        ensures
            r.source == self.source,
            dir_model(r.dir) == spec_add_file(
                dir_model(self.dir),
                segs_view(parts@),
                0,
                file_model(file),
            ),
    {
        let Root { source, dir } = self;
        Root { source, dir: add_file_rec(dir, parts, 0, file) }
    }

    /// The file trees of every configured source root: one root per
    /// source, holding each include file under its parent directories. An
    /// include file's last segment is the file, the segments before it are
    /// its directories; include directories contribute their chains.
    pub fn from_config(config: &Config) -> (r: Vec<Root>)
        ensures
            r@.len() == config.sources@.len(),
            forall|k: int|
                0 <= k < r@.len() ==> (#[trigger] r@[k]).source == k && dir_model(r@[k].dir)
                    == spec_root_files(
                    spec_root_dirs(
                        DirModel {
                            source: k,
                            path: config.sources@[k].dir@,
                            dirs: Seq::empty(),
                            files: Seq::empty(),
                        },
                        config.sources@[k].include_dirs@,
                        config.sources@[k].dir@,
                        0,
                    ),
                    config.sources@[k].include_files@,
                    config.sources@[k].dir@,
                    k,
                    0,
                ),
    {
        let mut roots: Vec<Root> = Vec::new();
        let mut s: usize = 0;
        while s < config.sources.len()
            invariant
                s <= config.sources@.len(),
                roots@.len() == s,
                forall|k: int|
                    0 <= k < s ==> (#[trigger] roots@[k]).source == k && dir_model(roots@[k].dir)
                        == spec_root_files(
                        spec_root_dirs(
                            DirModel {
                                source: k,
                                path: config.sources@[k].dir@,
                                dirs: Seq::empty(),
                                files: Seq::empty(),
                            },
                            config.sources@[k].include_dirs@,
                            config.sources@[k].dir@,
                            0,
                        ),
                        config.sources@[k].include_files@,
                        config.sources@[k].dir@,
                        k,
                        0,
                    ),
            decreases config.sources@.len() - s,
        {
            let source = &config.sources[s];
            let ghost dirv = source.dir@;
            let ghost base = DirModel {
                source: s as int,
                path: dirv,
                dirs: Seq::empty(),
                files: Seq::empty(),
            };
            let mut root = Root {
                source: s,
                dir: Dir::new(s, source.dir.duplicate()),
            };
            proof {
                assert(dir_model(root.dir) =~~= base);
            }
            let mut di: usize = 0;
            while di < source.include_dirs.len()
                invariant
                    di <= source.include_dirs@.len(),
                    root.source == s,
                    source == config.sources@[s as int],
                    base == (DirModel {
                        source: s as int,
                        path: dirv,
                        dirs: Seq::empty(),
                        files: Seq::empty(),
                    }),
                    dirv == source.dir@,
                    spec_root_dirs(dir_model(root.dir), source.include_dirs@, dirv, di as int)
                        == spec_root_dirs(base, source.include_dirs@, dirv, 0),
                decreases source.include_dirs@.len() - di,
            {
                let stripped = source.include_dirs[di].strip_prefix(&source.dir);
                let ghost pre = dir_model(root.dir);
                root = root.add_dirs(&stripped.raw_parts());
                di += 1;
                proof {
                    assert(stripped@ == strip_view(source.include_dirs@[di - 1]@, dirv));
                    assert(spec_root_dirs(
                        dir_model(root.dir),
                        source.include_dirs@,
                        dirv,
                        di as int,
                    ) == spec_root_dirs(base, source.include_dirs@, dirv, 0));
                }
            }
            proof {
                assert(spec_root_dirs(
                    dir_model(root.dir),
                    source.include_dirs@,
                    dirv,
                    source.include_dirs@.len() as int,
                ) == dir_model(root.dir));
            }
            let ghost after_dirs = dir_model(root.dir);
            proof {
                assert(after_dirs == spec_root_dirs(base, source.include_dirs@, dirv, 0));
            }
            let mut fi: usize = 0;
            while fi < source.include_files.len()
                invariant
                    fi <= source.include_files@.len(),
                    root.source == s,
                    source == config.sources@[s as int],
                    dirv == source.dir@,
                    spec_root_files(
                        dir_model(root.dir),
                        source.include_files@,
                        dirv,
                        s as int,
                        fi as int,
                    ) == spec_root_files(
                        after_dirs,
                        source.include_files@,
                        dirv,
                        s as int,
                        0,
                    ),
                decreases source.include_files@.len() - fi,
            {
                let stripped = source.include_files[fi].strip_prefix(&source.dir);
                let ghost sv = stripped@;
                let parts = stripped.raw_parts();
                if parts.len() > 0 {
                    let mut parents: Vec<String> = Vec::new();
                    let mut k: usize = 0;
                    proof {
                        assert(segs_view(parents@) =~~= sv.take(0));
                    }
                    while k < parts.len() - 1
                        invariant
                            parts@.len() > 0,
                            k <= parts@.len() - 1,
                            parents@.len() == k,
                            segs_view(parts@) == sv,
                            segs_view(parents@) == sv.take(k as int),
                        decreases parts@.len() - 1 - k,
                    {
                        parents.push(parts[k].clone());
                        k += 1;
                        proof {
                            assert(segs_view(parents@) =~~= sv.take(k as int));
                        }
                    }
                    proof {
                        assert(segs_view(parents@) =~~= sv.take(sv.len() - 1));
                    }
                    let file = File::new(s, stripped);
                    root = root.try_add_dirs(&parents, file);
                }
                fi += 1;
                proof {
                    assert(sv == strip_view(source.include_files@[fi - 1]@, dirv));
                    assert(spec_root_files(
                        dir_model(root.dir),
                        source.include_files@,
                        dirv,
                        s as int,
                        fi as int,
                    ) == spec_root_files(
                        after_dirs,
                        source.include_files@,
                        dirv,
                        s as int,
                        0,
                    ));
                }
            }
            proof {
                assert(dir_model(root.dir) == spec_root_files(
                    after_dirs,
                    source.include_files@,
                    dirv,
                    s as int,
                    0,
                ));
            }
            roots.push(root);
            s += 1;
        }
        roots
    }
}

/// An include path with its source root's directory stripped, when it lies
/// under it.
pub open spec fn strip_view(u: Seq<Seq<char>>, dirv: Seq<Seq<char>>) -> Seq<Seq<char>> {
    if dirv.is_prefix_of(u) {
        u.skip(dirv.len() as int)
    } else {
        u
    }
}

/// The tree after the include directories from index `i` on have grown
/// their chains, in order.
pub open spec fn spec_root_dirs(
    d: DirModel,
    dirs: Seq<UrlPath>,
    dirv: Seq<Seq<char>>,
    i: int,
) -> DirModel
    decreases dirs.len() - i when 0 <= i <= dirs.len()
{
    if i >= dirs.len() {
        d
    } else {
        spec_root_dirs(
            spec_add_dirs(d, strip_view(dirs[i]@, dirv), 0),
            dirs,
            dirv,
            i + 1,
        )
    }
}

/// The tree after the include files from index `i` on have been inserted
/// under their parent directories, in order; a file whose stripped path is
/// empty contributes nothing.
pub open spec fn spec_root_files(
    d: DirModel,
    files: Seq<UrlPath>,
    dirv: Seq<Seq<char>>,
    source: int,
    i: int,
) -> DirModel
    decreases files.len() - i when 0 <= i <= files.len()
{
    if i >= files.len() {
        d
    } else {
        let sv = strip_view(files[i]@, dirv);
        let d2 = if sv.len() > 0 {
            spec_add_file(d, sv.take(sv.len() - 1), 0, FileModel { source, path: sv })
        } else {
            d
        };
        spec_root_files(d2, files, dirv, source, i + 1)
    }
}

} // verus!
