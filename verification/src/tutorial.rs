//! Hand-authored tutorial pages and their folder tree. The surrounding
//! program reads the files; the ordering of the sidebar and index listings
//! is decided here: tutorials come in their configured order first, then by
//! name, and folders by name.

use vstd::prelude::*;

use crate::markdown::Metadata;
use crate::nav::cp_eq;
use crate::nav::lemma_str_lt_total;
use crate::nav::lemma_str_lt_trans;
use crate::nav::str_lt;
use crate::url_path::UrlPath;

verus! {

broadcast use vstd::std_specs::vec::axiom_vec_decreases_to_view, vstd::seq::axiom_seq_index_decreases;

/// One tutorial page: its path under the tutorial directory, its resolved
/// metadata, and its unrendered text.
pub struct Tutorial {
    pub path: UrlPath,
    pub metadata: Metadata,
    pub unparsed_content: String,
}

impl Tutorial {
    /// A tutorial page.
    pub fn new(path: UrlPath, metadata: Metadata, unparsed_content: String) -> (r: Tutorial)
        ensures
            r.path == path,
            r.metadata == metadata,
            r.unparsed_content == unparsed_content,
    {
        Tutorial { path, metadata, unparsed_content }
    }

    /// The page's display name: its resolved title, or nothing without one.
    pub fn name(&self) -> (r: Option<String>)
        ensures
            (match (r, self.metadata.title) {
                (Some(ref a), Some(ref b)) => a@ == b@,
                (None, None) => true,
                _ => false,
            }),
    {
        match &self.metadata.title {
            Some(t) => Some(t.clone()),
            None => None,
        }
    }

    /// The page's URL: its path with the markdown extension removed.
    pub fn url(&self) -> (r: UrlPath)
        ensures
            r@ == crate::url_path::spec_remove_extension(self.path@, ".md"@),
    {
        proof {
            reveal_strlit(".md");
        }
        self.path.remove_extension(".md")
    }
}

/// A folder of tutorial pages: its subfolders and pages, its optional index
/// document and metadata, and whether it starts open in the sidebar.
pub struct TutorialFolder {
    pub is_root: bool,
    pub is_open: bool,
    pub path: UrlPath,
    pub metadata: Option<Metadata>,
    pub index: Option<String>,
    pub folders: Vec<TutorialFolder>,
    pub tutorials: Vec<Tutorial>,
}

/// The pointed-at folders of a reference list.
pub open spec fn folder_derefs(rs: Seq<&TutorialFolder>) -> Seq<TutorialFolder> {
    Seq::new(rs.len(), |i: int| *rs[i])
}

/// The pointed-at pages of a reference list.
pub open spec fn tutorial_derefs(rs: Seq<&Tutorial>) -> Seq<Tutorial> {
    Seq::new(rs.len(), |i: int| *rs[i])
}

impl TutorialFolder {
    /// The empty root folder: what a build without configured tutorials
    /// holds.
    pub fn empty_root() -> (r: TutorialFolder)
        ensures
            r.is_root,
            r.is_open,
            r.path@ == Seq::<Seq<char>>::empty(),
            r.metadata is None,
            r.index is None,
            r.folders@ == Seq::<TutorialFolder>::empty(),
            r.tutorials@ == Seq::<Tutorial>::empty(),
    {
        TutorialFolder {
            is_root: true,
            is_open: true,
            path: UrlPath::new(),
            metadata: None,
            index: None,
            folders: Vec::new(),
            tutorials: Vec::new(),
        }
    }

    /// The folder's display name: its index metadata's title, or its last
    /// path segment, or the empty string.
    pub fn name(&self) -> (r: String)
        ensures
            r@ == spec_folder_name(*self),
    {
        match &self.metadata {
            Some(m) => match &m.title {
                Some(t) => t.clone(),
                None => match self.path.raw_file_name() {
                    Some(n) => n,
                    None => String::new(),
                },
            },
            None => match self.path.raw_file_name() {
                Some(n) => n,
                None => String::new(),
            },
        }
    }

    /// The subfolders in listing order: by name. The same folders come
    /// back, rearranged.
    pub fn folders_sorted(&self) -> (r: Vec<&TutorialFolder>)
        ensures
            folder_sorted(folder_derefs(r@)),
            folder_derefs(r@).to_multiset() == self.folders@.to_multiset(),
    {
        let mut refs: Vec<&TutorialFolder> = Vec::new();
        let mut i: usize = 0;
        while i < self.folders.len()
            invariant
                i <= self.folders@.len(),
                refs@.len() == i,
                folder_derefs(refs@) == self.folders@.take(i as int),
            decreases self.folders@.len() - i,
        {
            refs.push(&self.folders[i]);
            i += 1;
            proof {
                assert(folder_derefs(refs@) =~= self.folders@.take(i as int));
            }
        }
        proof {
            assert(folder_derefs(refs@) =~= self.folders@);
        }
        sort_folder_refs(refs)
    }

    /// The pages in listing order: pages with a configured order first, by
    /// that order, then the rest by name. The same pages come back,
    /// rearranged.
    pub fn tutorials_sorted(&self) -> (r: Vec<&Tutorial>)
        ensures
            tutorial_sorted(tutorial_derefs(r@)),
            tutorial_derefs(r@).to_multiset() == self.tutorials@.to_multiset(),
    {
        let mut refs: Vec<&Tutorial> = Vec::new();
        let mut i: usize = 0;
        while i < self.tutorials.len()
            invariant
                i <= self.tutorials@.len(),
                refs@.len() == i,
                tutorial_derefs(refs@) == self.tutorials@.take(i as int),
            decreases self.tutorials@.len() - i,
        {
            refs.push(&self.tutorials[i]);
            i += 1;
            proof {
                assert(tutorial_derefs(refs@) =~= self.tutorials@.take(i as int));
            }
        }
        proof {
            assert(tutorial_derefs(refs@) =~= self.tutorials@);
        }
        sort_tutorial_refs(refs)
    }
}

/// The folder's display name.
pub open spec fn spec_folder_name(f: TutorialFolder) -> Seq<char> {
    match f.metadata {
        Some(m) => match m.title {
            Some(t) => t@,
            None => if f.path@.len() > 0 {
                f.path@.last()
            } else {
                Seq::empty()
            },
        },
        None => if f.path@.len() > 0 {
            f.path@.last()
        } else {
            Seq::empty()
        },
    }
}

/// The listing order on folders: by name.
pub open spec fn folder_le(x: TutorialFolder, y: TutorialFolder) -> bool {
    str_lt(spec_folder_name(x), spec_folder_name(y)) || cp_eq(
        spec_folder_name(x),
        spec_folder_name(y),
    )
}

/// Whether the folders stand in listing order.
pub open spec fn folder_sorted(fs: Seq<TutorialFolder>) -> bool {
    forall|i: int, j: int| 0 <= i < j < fs.len() ==> folder_le(#[trigger] fs[i], #[trigger] fs[j])
}

/// The page's name for ordering purposes.
pub open spec fn spec_tutorial_name(t: Tutorial) -> Seq<char> {
    match t.metadata.title {
        Some(s) => s@,
        None => Seq::empty(),
    }
}

/// The listing order on pages: a configured order comes before none and
/// orders numerically; pages without one order by name.
pub open spec fn tutorial_le(x: Tutorial, y: Tutorial) -> bool {
    match (x.metadata.order, y.metadata.order) {
        (Some(a), Some(b)) => a <= b,
        (Some(_), None) => true,
        (None, Some(_)) => false,
        (None, None) => str_lt(spec_tutorial_name(x), spec_tutorial_name(y)) || cp_eq(
            spec_tutorial_name(x),
            spec_tutorial_name(y),
        ),
    }
}

/// Whether the pages stand in listing order.
pub open spec fn tutorial_sorted(ts: Seq<Tutorial>) -> bool {
    forall|i: int, j: int| 0 <= i < j < ts.len() ==> tutorial_le(#[trigger] ts[i], #[trigger] ts[j])
}

/// The listing order on folders is total.
pub proof fn lemma_folder_le_total(x: TutorialFolder, y: TutorialFolder)
    ensures
        folder_le(x, y) || folder_le(y, x),
{
    lemma_str_lt_total(spec_folder_name(x), spec_folder_name(y));
}

/// The listing order on folders is transitive.
pub proof fn lemma_folder_le_trans(x: TutorialFolder, y: TutorialFolder, z: TutorialFolder)
    requires
        folder_le(x, y),
        folder_le(y, z),
    ensures
        folder_le(x, z),
{
    lemma_str_lt_trans(spec_folder_name(x), spec_folder_name(y), spec_folder_name(z));
}

/// The listing order on pages is total.
pub proof fn lemma_tutorial_le_total(x: Tutorial, y: Tutorial)
    ensures
        tutorial_le(x, y) || tutorial_le(y, x),
{
    if x.metadata.order is None && y.metadata.order is None {
        lemma_str_lt_total(spec_tutorial_name(x), spec_tutorial_name(y));
    }
}

/// The listing order on pages is transitive.
pub proof fn lemma_tutorial_le_trans(x: Tutorial, y: Tutorial, z: Tutorial)
    requires
        tutorial_le(x, y),
        tutorial_le(y, z),
    ensures
        tutorial_le(x, z),
{
    if x.metadata.order is None && y.metadata.order is None && z.metadata.order is None {
        lemma_str_lt_trans(spec_tutorial_name(x), spec_tutorial_name(y), spec_tutorial_name(z));
    }
}

/// Whether the first folder comes at or before the second in listing order.
fn folder_le_exec(x: &TutorialFolder, y: &TutorialFolder) -> (r: bool)
    ensures
        r == folder_le(*x, *y),
{
    let xn = x.name();
    let yn = y.name();
    crate::nav::str_le_exec(xn.as_str(), yn.as_str())
}

/// Whether the first page comes at or before the second in listing order.
fn tutorial_le_exec(x: &Tutorial, y: &Tutorial) -> (r: bool)
    ensures
        r == tutorial_le(*x, *y),
{
    match (&x.metadata.order, &y.metadata.order) {
        (Some(a), Some(b)) => *a <= *b,
        (Some(_), None) => true,
        (None, Some(_)) => false,
        (None, None) => {
            let xn = match &x.metadata.title {
                Some(t) => t.clone(),
                None => String::new(),
            };
            let yn = match &y.metadata.title {
                Some(t) => t.clone(),
                None => String::new(),
            };
            crate::nav::str_le_exec(xn.as_str(), yn.as_str())
        },
    }
}

/// The folder references rearranged into listing order.
fn sort_folder_refs<'a>(fs: Vec<&'a TutorialFolder>) -> (r: Vec<&'a TutorialFolder>)
    ensures
        folder_sorted(folder_derefs(r@)),
        folder_derefs(r@).to_multiset() == folder_derefs(fs@).to_multiset(),
{
    let mut input = fs;
    let ghost all = folder_derefs(input@);
    let mut out: Vec<&TutorialFolder> = Vec::new();
    proof {
        assert(folder_derefs(out@).to_multiset().add(folder_derefs(input@).to_multiset())
            =~= all.to_multiset()) by {
            assert(folder_derefs(out@) =~= Seq::<TutorialFolder>::empty());
            folder_derefs(out@).to_multiset_ensures();
            assert(folder_derefs(out@).to_multiset().len() == 0);
        }
    }
    while input.len() > 0
        invariant
            folder_sorted(folder_derefs(out@)),
            folder_derefs(out@).to_multiset().add(folder_derefs(input@).to_multiset())
                == all.to_multiset(),
        decreases input@.len(),
    {
        let ghost in_pre = folder_derefs(input@);
        let x = input.remove(0);
        proof {
            in_pre.to_multiset_ensures();
            assert(in_pre.remove(0).to_multiset() =~= in_pre.to_multiset().remove(in_pre[0]));
            assert(folder_derefs(input@) =~= in_pre.remove(0));
        }
        let mut j: usize = 0;
        while j < out.len() && folder_le_exec(out[j], x)
            invariant
                j <= out@.len(),
                folder_sorted(folder_derefs(out@)),
                forall|k: int| 0 <= k < j ==> folder_le(#[trigger] folder_derefs(out@)[k], *x),
            decreases out@.len() - j,
        {
            j += 1;
        }
        proof {
            if j < out@.len() {
                lemma_folder_le_total(folder_derefs(out@)[j as int], *x);
            }
        }
        let ghost prev = folder_derefs(out@);
        out.insert(j, x);
        proof {
            let cur = folder_derefs(out@);
            assert(forall|k: int| 0 <= k < j ==> #[trigger] cur[k] == prev[k]);
            assert(cur[j as int] == *x);
            assert(forall|k: int| j < k < cur.len() ==> #[trigger] cur[k] == prev[k - 1]);
            assert forall|k1: int, k2: int|
                0 <= k1 < k2 < cur.len() implies folder_le(
                #[trigger] cur[k1],
                #[trigger] cur[k2],
            ) by {
                if k2 == j {
                    assert(cur[k1] == prev[k1]);
                } else if k1 == j {
                    assert(cur[k2] == prev[k2 - 1]);
                    if k2 - 1 > j {
                        assert(folder_le(prev[j as int], prev[k2 - 1]));
                        lemma_folder_le_trans(*x, prev[j as int], prev[k2 - 1]);
                    }
                } else if k1 < j && j < k2 {
                    assert(cur[k1] == prev[k1] && cur[k2] == prev[k2 - 1]);
                } else if k2 < j {
                    assert(cur[k1] == prev[k1] && cur[k2] == prev[k2]);
                } else {
                    assert(cur[k1] == prev[k1 - 1] && cur[k2] == prev[k2 - 1]);
                }
            }
            cur.to_multiset_ensures();
            prev.to_multiset_ensures();
            in_pre.to_multiset_ensures();
            assert(cur.remove(j as int) =~= prev);
            assert(cur.remove(j as int).to_multiset() =~= cur.to_multiset().remove(*x));
            assert(cur.contains(*x)) by {
                assert(cur[j as int] == *x);
            }
            assert(cur.to_multiset().count(*x) > 0);
            assert(cur.to_multiset() =~= prev.to_multiset().insert(*x));
            assert(in_pre.contains(in_pre[0])) by {
                assert(in_pre[0] == in_pre[0]);
            }
            assert(in_pre.to_multiset().count(in_pre[0]) > 0);
            assert(*x == in_pre[0]);
            assert(folder_derefs(input@).to_multiset() =~= in_pre.to_multiset().remove(*x));
            assert forall|e: TutorialFolder|
                cur.to_multiset().add(folder_derefs(input@).to_multiset()).count(e)
                    == all.to_multiset().count(e) by {
                assert(prev.to_multiset().add(in_pre.to_multiset()).count(e)
                    == all.to_multiset().count(e));
                assert(cur.to_multiset().count(e) == prev.to_multiset().insert(*x).count(e));
                assert(folder_derefs(input@).to_multiset().count(e)
                    == in_pre.to_multiset().remove(*x).count(e));
            }
            assert(cur.to_multiset().add(folder_derefs(input@).to_multiset())
                =~= all.to_multiset());
        }
    }
    proof {
        assert(folder_derefs(input@) =~= Seq::<TutorialFolder>::empty());
        folder_derefs(input@).to_multiset_ensures();
        assert(folder_derefs(input@).to_multiset().len() == 0);
        assert(folder_derefs(out@).to_multiset() =~= all.to_multiset());
    }
    out
}

/// The page references rearranged into listing order.
fn sort_tutorial_refs<'a>(ts: Vec<&'a Tutorial>) -> (r: Vec<&'a Tutorial>)
    ensures
        tutorial_sorted(tutorial_derefs(r@)),
        tutorial_derefs(r@).to_multiset() == tutorial_derefs(ts@).to_multiset(),
{
    let mut input = ts;
    let ghost all = tutorial_derefs(input@);
    let mut out: Vec<&Tutorial> = Vec::new();
    proof {
        assert(tutorial_derefs(out@).to_multiset().add(tutorial_derefs(input@).to_multiset())
            =~= all.to_multiset()) by {
            assert(tutorial_derefs(out@) =~= Seq::<Tutorial>::empty());
            tutorial_derefs(out@).to_multiset_ensures();
            assert(tutorial_derefs(out@).to_multiset().len() == 0);
        }
    }
    while input.len() > 0
        invariant
            tutorial_sorted(tutorial_derefs(out@)),
            tutorial_derefs(out@).to_multiset().add(tutorial_derefs(input@).to_multiset())
                == all.to_multiset(),
        decreases input@.len(),
    {
        let ghost in_pre = tutorial_derefs(input@);
        let x = input.remove(0);
        proof {
            in_pre.to_multiset_ensures();
            assert(in_pre.remove(0).to_multiset() =~= in_pre.to_multiset().remove(in_pre[0]));
            assert(tutorial_derefs(input@) =~= in_pre.remove(0));
        }
        let mut j: usize = 0;
        while j < out.len() && tutorial_le_exec(out[j], x)
            invariant
                j <= out@.len(),
                tutorial_sorted(tutorial_derefs(out@)),
                forall|k: int| 0 <= k < j ==> tutorial_le(#[trigger] tutorial_derefs(out@)[k], *x),
            decreases out@.len() - j,
        {
            j += 1;
        }
        proof {
            if j < out@.len() {
                lemma_tutorial_le_total(tutorial_derefs(out@)[j as int], *x);
            }
        }
        let ghost prev = tutorial_derefs(out@);
        out.insert(j, x);
        proof {
            let cur = tutorial_derefs(out@);
            assert(forall|k: int| 0 <= k < j ==> #[trigger] cur[k] == prev[k]);
            assert(cur[j as int] == *x);
            assert(forall|k: int| j < k < cur.len() ==> #[trigger] cur[k] == prev[k - 1]);
            assert forall|k1: int, k2: int|
                0 <= k1 < k2 < cur.len() implies tutorial_le(
                #[trigger] cur[k1],
                #[trigger] cur[k2],
            ) by {
                if k2 == j {
                    assert(cur[k1] == prev[k1]);
                } else if k1 == j {
                    assert(cur[k2] == prev[k2 - 1]);
                    if k2 - 1 > j {
                        assert(tutorial_le(prev[j as int], prev[k2 - 1]));
                        lemma_tutorial_le_trans(*x, prev[j as int], prev[k2 - 1]);
                    }
                } else if k1 < j && j < k2 {
                    assert(cur[k1] == prev[k1] && cur[k2] == prev[k2 - 1]);
                } else if k2 < j {
                    assert(cur[k1] == prev[k1] && cur[k2] == prev[k2]);
                } else {
                    assert(cur[k1] == prev[k1 - 1] && cur[k2] == prev[k2 - 1]);
                }
            }
            cur.to_multiset_ensures();
            prev.to_multiset_ensures();
            in_pre.to_multiset_ensures();
            assert(cur.remove(j as int) =~= prev);
            assert(cur.remove(j as int).to_multiset() =~= cur.to_multiset().remove(*x));
            assert(cur.contains(*x)) by {
                assert(cur[j as int] == *x);
            }
            assert(cur.to_multiset().count(*x) > 0);
            assert(cur.to_multiset() =~= prev.to_multiset().insert(*x));
            assert(in_pre.contains(in_pre[0])) by {
                assert(in_pre[0] == in_pre[0]);
            }
            assert(in_pre.to_multiset().count(in_pre[0]) > 0);
            assert(*x == in_pre[0]);
            assert(tutorial_derefs(input@).to_multiset() =~= in_pre.to_multiset().remove(*x));
            assert forall|e: Tutorial|
                cur.to_multiset().add(tutorial_derefs(input@).to_multiset()).count(e)
                    == all.to_multiset().count(e) by {
                assert(prev.to_multiset().add(in_pre.to_multiset()).count(e)
                    == all.to_multiset().count(e));
                assert(cur.to_multiset().count(e) == prev.to_multiset().insert(*x).count(e));
                assert(tutorial_derefs(input@).to_multiset().count(e)
                    == in_pre.to_multiset().remove(*x).count(e));
            }
            assert(cur.to_multiset().add(tutorial_derefs(input@).to_multiset())
                =~= all.to_multiset());
        }
    }
    proof {
        assert(tutorial_derefs(input@) =~= Seq::<Tutorial>::empty());
        tutorial_derefs(input@).to_multiset_ensures();
        assert(tutorial_derefs(input@).to_multiset().len() == 0);
        assert(tutorial_derefs(out@).to_multiset() =~= all.to_multiset());
    }
    out
}

} // verus!
