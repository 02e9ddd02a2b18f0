//! Canonical URL paths: an ordered list of segments with two renderings, a
//! raw display form and a percent-encoded filesystem/URL-safe form.
//!
//! Construction normalizes the segment list: empty segments and `.` are
//! dropped, and `..` pops the previous segment, clamped at the root.

use vstd::prelude::*;
use vstd::string::StrSliceExecFns;
use vstd::string::StringExecFns;

use crate::encode::url_encode;
use crate::encode::url_encoded_seg;
use crate::strings::chars_vec;
use crate::strings::push_char;

verus! {

/// The one-character segment `.`, dropped at construction.
pub open spec fn dot_seg() -> Seq<char> {
    seq!['.']
}

/// The two-character segment `..`, which pops its predecessor.
pub open spec fn dotdot_seg() -> Seq<char> {
    seq!['.', '.']
}

/// A segment that construction keeps: non-empty and not a dot form.
pub open spec fn seg_kept(s: Seq<char>) -> bool {
    s.len() > 0 && s != dot_seg() && s != dotdot_seg()
}

/// Every segment of the sequence is kept by construction.
pub open spec fn wf_segs(ss: Seq<Seq<char>>) -> bool {
    forall|i: int| 0 <= i < ss.len() ==> seg_kept(#[trigger] ss[i])
}

/// The views of a vector of segment strings.
pub open spec fn segs_view(parts: Seq<String>) -> Seq<Seq<char>> {
    Seq::new(parts.len(), |i: int| parts[i]@)
}

/// Drops the last segment if there is one; the root stays the root.
pub open spec fn pop_seg(ss: Seq<Seq<char>>) -> Seq<Seq<char>> {
    if ss.len() > 0 {
        ss.drop_last()
    } else {
        ss
    }
}

/// The normalized form of a segment list: empty segments and `.` are
/// dropped, and `..` pops the previous remaining segment, clamped at the
/// root.
pub open spec fn clean_segs(ss: Seq<Seq<char>>) -> Seq<Seq<char>>
    decreases ss.len(),
{
    if ss.len() == 0 {
        Seq::empty()
    } else {
        let rest = clean_segs(ss.drop_last());
        let last = ss.last();
        if last.len() == 0 || last == dot_seg() {
            rest
        } else if last == dotdot_seg() {
            pop_seg(rest)
        } else {
            rest.push(last)
        }
    }
}

/// Normalization only produces kept segments.
pub proof fn lemma_clean_segs_wf(ss: Seq<Seq<char>>)
    ensures
        wf_segs(clean_segs(ss)),
    decreases ss.len(),
{
    if ss.len() > 0 {
        lemma_clean_segs_wf(ss.drop_last());
    }
}

/// Normalization leaves an already-normalized segment list unchanged.
pub proof fn lemma_clean_segs_of_wf(ss: Seq<Seq<char>>)
    requires
        wf_segs(ss),
    ensures
        clean_segs(ss) == ss,
    decreases ss.len(),
{
    if ss.len() > 0 {
        assert(wf_segs(ss.drop_last()));
        lemma_clean_segs_of_wf(ss.drop_last());
        assert(seg_kept(ss.last()));
        assert(clean_segs(ss) =~= ss);
    } else {
        assert(clean_segs(ss) =~= ss);
    }
}

/// Normalization keeps only segments drawn from the input, so a property of
/// every input segment holds of every output segment.
pub proof fn lemma_clean_segs_slash_free(ss: Seq<Seq<char>>)
    requires
        forall|i: int| 0 <= i < ss.len() ==> slash_free(#[trigger] ss[i]),
    ensures
        forall|i: int|
            0 <= i < clean_segs(ss).len() ==> slash_free(#[trigger] clean_segs(ss)[i]),
    decreases ss.len(),
{
    if ss.len() > 0 {
        assert(forall|i: int|
            0 <= i < ss.drop_last().len() ==> slash_free(#[trigger] ss.drop_last()[i]));
        lemma_clean_segs_slash_free(ss.drop_last());
        let rest = clean_segs(ss.drop_last());
        let last = ss.last();
        assert(slash_free(ss[ss.len() - 1]));
        if last.len() == 0 || last == dot_seg() {
        } else if last == dotdot_seg() {
            assert(forall|i: int|
                0 <= i < pop_seg(rest).len() ==> slash_free(#[trigger] pop_seg(rest)[i]));
        } else {
            assert(forall|i: int|
                0 <= i < rest.push(last).len() ==> slash_free(#[trigger] rest.push(last)[i]));
        }
    }
}

/// The raw rendering of a segment list: the segments joined by `/`.
pub open spec fn join_segs(ss: Seq<Seq<char>>) -> Seq<char>
    decreases ss.len(),
{
    if ss.len() == 0 {
        Seq::empty()
    } else if ss.len() == 1 {
        ss[0]
    } else {
        ss[0] + seq!['/'] + join_segs(ss.drop_first())
    }
}

/// Joining one more segment on the right appends a separator and the segment.
pub proof fn lemma_join_segs_snoc(ss: Seq<Seq<char>>, x: Seq<char>)
    ensures
        join_segs(ss.push(x)) == if ss.len() == 0 {
            x
        } else {
            join_segs(ss) + seq!['/'] + x
        },
    decreases ss.len(),
{
    if ss.len() == 0 {
        assert(ss.push(x)[0] =~= x);
        assert(join_segs(ss.push(x)) == x);
    } else {
        assert(ss.push(x).drop_first() =~= ss.drop_first().push(x));
        lemma_join_segs_snoc(ss.drop_first(), x);
        if ss.len() == 1 {
            assert(join_segs(ss.push(x)) =~= ss[0] + seq!['/'] + x);
            assert(join_segs(ss) + seq!['/'] + x =~= ss[0] + seq!['/'] + x);
        } else {
            assert(join_segs(ss.push(x)) =~= join_segs(ss) + seq!['/'] + x);
        }
    }
}

/// No character of the sequence is the separator.
pub open spec fn slash_free(s: Seq<char>) -> bool {
    forall|i: int| 0 <= i < s.len() ==> s[i] != '/'
}

/// The first index at or after `from` holding a `/`, or the length when
/// there is none.
pub open spec fn first_slash(s: Seq<char>, from: int) -> int
    decreases s.len() - from when 0 <= from <= s.len()
{
    if from >= s.len() {
        s.len() as int
    } else if s[from] == '/' {
        from
    } else {
        first_slash(s, from + 1)
    }
}

pub proof fn lemma_first_slash_bounds(s: Seq<char>, from: int)
    requires
        0 <= from <= s.len(),
    ensures
        from <= first_slash(s, from) <= s.len(),
        first_slash(s, from) < s.len() ==> s[first_slash(s, from)] == '/',
        forall|j: int| from <= j < first_slash(s, from) ==> s[j] != '/',
    decreases s.len() - from,
{
    if from < s.len() && s[from] != '/' {
        lemma_first_slash_bounds(s, from + 1);
    }
}

/// When the characters from `from` up to `k` are slash-free and `k` holds a
/// slash (or is the end), the first slash search lands exactly on `k`.
pub proof fn lemma_first_slash_at(s: Seq<char>, from: int, k: int)
    requires
        0 <= from <= k <= s.len(),
        forall|j: int| from <= j < k ==> s[j] != '/',
        k < s.len() ==> s[k] == '/',
    ensures
        first_slash(s, from) == k,
    decreases k - from,
{
    if from < k {
        lemma_first_slash_at(s, from + 1, k);
    }
}

/// The segments of a character sequence split on `/`, starting at `from`.
/// Splitting an empty remainder yields one empty segment, as `str::split`
/// does.
pub open spec fn split_slash(s: Seq<char>, from: int) -> Seq<Seq<char>>
    decreases s.len() - from when 0 <= from <= s.len() via split_slash_decreases
{
    let i = first_slash(s, from);
    if i < s.len() {
        seq![s.subrange(from, i)] + split_slash(s, i + 1)
    } else {
        seq![s.subrange(from, s.len() as int)]
    }
}

#[via_fn]
proof fn split_slash_decreases(s: Seq<char>, from: int) {
    lemma_first_slash_bounds(s, from);
}

/// Splitting recovers the segments that were joined, for slash-free
/// segments: the suffix of `s` from `from` on equals the joined form of
/// `ss`, so splitting from there yields exactly `ss`.
pub proof fn lemma_split_of_join_suffix(s: Seq<char>, from: int, ss: Seq<Seq<char>>)
    requires
        0 <= from <= s.len(),
        ss.len() > 0,
        forall|i: int| 0 <= i < ss.len() ==> slash_free(#[trigger] ss[i]),
        s.subrange(from, s.len() as int) == join_segs(ss),
    ensures
        split_slash(s, from) == ss,
    decreases ss.len(),
{
    let suffix = s.subrange(from, s.len() as int);
    if ss.len() == 1 {
        assert(suffix == ss[0]);
        assert(forall|j: int| from <= j < s.len() ==> s[j] == suffix[j - from] && s[j] != '/');
        lemma_first_slash_at(s, from, s.len() as int);
        assert(split_slash(s, from) =~= seq![ss[0]]);
        assert(split_slash(s, from) =~= ss);
    } else {
        let head = ss[0];
        let k = from + head.len();
        assert(suffix =~= head + seq!['/'] + join_segs(ss.drop_first()));
        assert(forall|j: int| from <= j < s.len() ==> #[trigger] s[j] == suffix[j - from]);
        assert(forall|j: int| from <= j < k ==> #[trigger] suffix[j - from] == head[j - from]);
        assert(slash_free(head));
        assert(forall|j: int| from <= j < k ==> s[j] != '/');
        assert(suffix[k - from] == '/');
        assert(s[k] == '/');
        lemma_first_slash_at(s, from, k);
        assert(s.subrange(from, k) =~= head);
        assert(forall|j: int| k + 1 <= j < s.len() ==> #[trigger] suffix[j - from]
            == join_segs(ss.drop_first())[j - k - 1]);
        assert(s.subrange(k + 1, s.len() as int) =~= join_segs(ss.drop_first()));
        assert(forall|i: int|
            0 <= i < ss.drop_first().len() ==> slash_free(#[trigger] ss.drop_first()[i]));
        lemma_split_of_join_suffix(s, k + 1, ss.drop_first());
        assert(split_slash(s, from) =~= seq![head] + ss.drop_first());
        assert(split_slash(s, from) =~= ss);
    }
}

/// A canonical URL path: an ordered, normalized list of segments.
pub struct UrlPath {
    parts: Vec<String>,
}

impl View for UrlPath {
    type V = Seq<Seq<char>>;

    closed spec fn view(&self) -> Seq<Seq<char>> {
        segs_view(self.parts@)
    }
}

impl UrlPath {
    /// Every path holds only kept segments.
    #[verifier::type_invariant]
    pub closed spec fn inv(&self) -> bool {
        wf_segs(self@)
    }

    /// The empty path (the root).
    pub fn new() -> (r: UrlPath)
        ensures
            r@ == Seq::<Seq<char>>::empty(),
    {
        let r = UrlPath { parts: Vec::new() };
        proof {
            assert(r@ =~= Seq::<Seq<char>>::empty());
        }
        r
    }

    /// A path of one segment.
    pub fn from_segment(seg: &str) -> (r: UrlPath)
        requires
            seg@.len() > 0,
            seg@ != dot_seg(),
            seg@ != dotdot_seg(),
        ensures
            r@ == seq![seg@],
    {
        let mut parts: Vec<String> = Vec::new();
        parts.push(seg.to_owned());
        proof {
            assert(segs_view(parts@) =~= seq![seg@]);
            assert(wf_segs(seq![seg@]));
            lemma_clean_segs_of_wf(seq![seg@]);
        }
        UrlPath::new_with_path(parts)
    }

    /// A path from the given segments, normalized: empty segments and `.`
    /// are dropped, `..` pops the previous segment, clamped at the root.
    pub fn new_with_path(parts: Vec<String>) -> (r: UrlPath)
        ensures
            r@ == clean_segs(segs_view(parts@)),
    {
        let cleaned = clean_vec(&parts);
        proof {
            lemma_clean_segs_wf(segs_view(parts@));
        }
        UrlPath { parts: cleaned }
    }

    /// Parses a path from a string: split on `/`, then normalize. Never
    /// fails; the `Result` mirrors fallible path sources whose other error
    /// cases are handled by the caller.
    pub fn parse(url: &str) -> (r: Result<UrlPath, String>)
        ensures
            r is Ok,
            r->Ok_0@ == clean_segs(split_slash(url@, 0)),
    {
        let chars = chars_vec(url);
        let parts = split_slash_exec(&chars);
        Ok(UrlPath::new_with_path(parts))
    }

    /// The number of segments.
    pub fn len(&self) -> (n: usize)
        ensures
            n == self@.len(),
    {
        self.parts.len()
    }

    /// Whether the path is the root.
    pub fn is_empty(&self) -> (r: bool)
        ensures
            r == (self@.len() == 0),
    {
        self.parts.len() == 0
    }

    /// A copy of this path.
    pub fn duplicate(&self) -> (r: UrlPath)
        ensures
            r@ == self@,
    {
        proof {
            use_type_invariant(self);
        }
        let mut parts: Vec<String> = Vec::new();
        let mut i: usize = 0;
        proof {
            assert(segs_view(parts@) =~= segs_view(self.parts@).take(0));
        }
        while i < self.parts.len()
            invariant
                i <= self.parts@.len(),
                parts@.len() == i,
                segs_view(parts@) == segs_view(self.parts@).take(i as int),
            decreases self.parts@.len() - i,
        {
            parts.push(self.parts[i].clone());
            i += 1;
            proof {
                assert(segs_view(parts@) =~~= segs_view(self.parts@).take(i as int));
            }
        }
        proof {
            assert(segs_view(parts@) =~= self@);
        }
        UrlPath { parts }
    }

    /// This path with the other's segments appended. Both are already
    /// normalized, so the result is their concatenation.
    pub fn join(&self, other: &UrlPath) -> (r: UrlPath)
        ensures
            r@ == self@ + other@,
    {
        proof {
            use_type_invariant(self);
            use_type_invariant(other);
        }
        let mut parts = self.duplicate().parts;
        let mut i: usize = 0;
        proof {
            assert(forall|k: int|
                0 <= k < parts@.len() ==> #[trigger] parts@[k]@ == segs_view(parts@)[k]);
        }
        while i < other.parts.len()
            invariant
                i <= other.parts@.len(),
                parts@.len() == self@.len() + i,
                forall|k: int| 0 <= k < self@.len() ==> #[trigger] parts@[k]@ == self@[k],
                forall|k: int|
                    self@.len() <= k < parts@.len() ==> #[trigger] parts@[k]@ == other.parts@[k
                        - self@.len()]@,
            decreases other.parts@.len() - i,
        {
            parts.push(other.parts[i].clone());
            i += 1;
        }
        proof {
            assert(segs_view(parts@) =~~= self@ + other@);
            assert(wf_segs(segs_view(parts@)));
        }
        UrlPath { parts }
    }

    /// Whether this path begins with the given prefix's segments.
    pub fn starts_with(&self, prefix: &UrlPath) -> (r: bool)
        ensures
            r == prefix@.is_prefix_of(self@),
    {
        proof {
            assert(self@.len() == self.parts@.len());
            assert(prefix@.len() == prefix.parts@.len());
        }
        if self.parts.len() < prefix.parts.len() {
            return false;
        }
        let mut i: usize = 0;
        let mut matches = true;
        proof {
            assert(prefix@.take(0) =~= self@.take(0));
        }
        while matches && i < prefix.parts.len()
            invariant
                i <= prefix.parts@.len() <= self.parts@.len(),
                prefix@.len() == prefix.parts@.len(),
                self@.len() == self.parts@.len(),
                matches ==> prefix@.take(i as int) == self@.take(i as int),
                !matches ==> !prefix@.is_prefix_of(self@),
            decreases prefix.parts@.len() - i,
        {
            let eq = string_eq(&self.parts[i], &prefix.parts[i]);
            proof {
                if eq {
                    assert(prefix@.take(i + 1) =~~= self@.take(i + 1));
                } else {
                    assert(prefix@[i as int] != self@[i as int]);
                    assert(prefix@.is_prefix_of(self@) ==> prefix@[i as int] == self@.subrange(
                        0,
                        prefix@.len() as int,
                    )[i as int]);
                    assert(!prefix@.is_prefix_of(self@));
                }
            }
            matches = eq;
            i += 1;
        }
        if matches {
            proof {
                assert(i == prefix@.len());
                assert(prefix@.take(prefix@.len() as int) =~= prefix@);
                assert(self@.take(prefix@.len() as int) =~= self@.subrange(
                    0,
                    prefix@.len() as int,
                ));
                assert(prefix@.is_prefix_of(self@));
            }
            true
        } else {
            false
        }
    }

    /// This path with the given prefix removed; when the prefix does not
    /// match, the path is returned unchanged.
    pub fn strip_prefix(&self, prefix: &UrlPath) -> (r: UrlPath)
        ensures
            prefix@.is_prefix_of(self@) ==> r@ == self@.skip(prefix@.len() as int),
            !prefix@.is_prefix_of(self@) ==> r@ == self@,
    {
        proof {
            use_type_invariant(self);
            use_type_invariant(prefix);
        }
        proof {
            assert(self@.len() == self.parts@.len());
            assert(prefix@.len() == prefix.parts@.len());
        }
        if self.parts.len() >= prefix.parts.len() {
            let mut i: usize = 0;
            let mut matches = true;
            proof {
                assert(prefix@.take(0) =~= self@.take(0));
            }
            while matches && i < prefix.parts.len()
                invariant
                    i <= prefix.parts@.len() <= self.parts@.len(),
                    prefix@.len() == prefix.parts@.len(),
                    self@.len() == self.parts@.len(),
                    matches ==> prefix@.take(i as int) == self@.take(i as int),
                    !matches ==> !prefix@.is_prefix_of(self@),
                decreases prefix.parts@.len() - i,
            {
                let eq = string_eq(&self.parts[i], &prefix.parts[i]);
                proof {
                    if eq {
                        assert(prefix@.take(i + 1) =~~= self@.take(i + 1));
                    } else {
                        assert(prefix@[i as int] != self@[i as int]);
                        assert(prefix@.is_prefix_of(self@) ==> prefix@[i as int] == self@.subrange(
                            0,
                            prefix@.len() as int,
                        )[i as int]);
                        assert(!prefix@.is_prefix_of(self@));
                    }
                }
                matches = eq;
                i += 1;
            }
            if matches {
                proof {
                    assert(i == prefix@.len());
                    assert(prefix@.take(prefix@.len() as int) =~= prefix@);
                    assert(prefix@ == self@.take(prefix@.len() as int));
                    assert(self@.take(prefix@.len() as int) =~= self@.subrange(
                        0,
                        prefix@.len() as int,
                    ));
                    assert(prefix@.is_prefix_of(self@));
                }
                let mut parts: Vec<String> = Vec::new();
                let mut j: usize = prefix.parts.len();
                proof {
                    assert(segs_view(parts@) =~= self@.subrange(
                        prefix@.len() as int,
                        j as int,
                    ));
                }
                while j < self.parts.len()
                    invariant
                        prefix.parts@.len() <= j <= self.parts@.len(),
                        prefix@.len() == prefix.parts@.len(),
                        self@ == segs_view(self.parts@),
                        parts@.len() == j - prefix@.len(),
                        segs_view(parts@) == self@.subrange(prefix@.len() as int, j as int),
                    decreases self.parts@.len() - j,
                {
                    parts.push(self.parts[j].clone());
                    j += 1;
                    proof {
                        assert(segs_view(parts@) =~= self@.subrange(
                            prefix@.len() as int,
                            j as int,
                        ));
                    }
                }
                proof {
                    assert(segs_view(parts@) =~= self@.skip(prefix@.len() as int));
                    assert(wf_segs(segs_view(parts@)));
                }
                return UrlPath { parts };
            }
            proof {
                assert(!prefix@.is_prefix_of(self@));
            }
            self.duplicate()
        } else {
            proof {
                assert(!prefix@.is_prefix_of(self@));
            }
            self.duplicate()
        }
    }

    /// This path with the extension removed from its last segment, when
    /// the segment ends with it and something valid remains; otherwise the
    /// path unchanged.
    pub fn remove_extension(&self, ext: &str) -> (r: UrlPath)
        ensures
            r@ == spec_remove_extension(self@, ext@),
    {
        proof {
            use_type_invariant(self);
        }
        if self.parts.len() == 0 {
            proof {
                assert(spec_remove_extension(self@, ext@) == self@);
            }
            return self.duplicate();
        }
        let last = &self.parts[self.parts.len() - 1];
        let llen = last.as_str().unicode_len();
        let elen = ext.unicode_len();
        if elen > llen {
            proof {
                assert(spec_remove_extension(self@, ext@) == self@);
            }
            return self.duplicate();
        }
        let mut k: usize = 0;
        let mut matches = true;
        proof {
            assert(last@.subrange(llen - elen, llen as int).take(0) =~= ext@.take(0));
        }
        while matches && k < elen
            invariant
                k <= elen <= llen,
                llen == last@.len(),
                elen == ext@.len(),
                matches ==> last@.subrange(llen - elen, llen as int).take(k as int) == ext@.take(
                    k as int,
                ),
                !matches ==> last@.subrange(llen - elen, llen as int) != ext@,
            decreases elen - k,
        {
            let c = last.as_str().get_char(llen - elen + k);
            let e = ext.get_char(k);
            proof {
                assert(last@.subrange(llen - elen, llen as int)[k as int] == last@[llen - elen
                    + k]);
            }
            if c == e {
                proof {
                    assert(last@.subrange(llen - elen, llen as int).take(k + 1) =~= ext@.take(
                        k + 1,
                    ));
                }
            } else {
                proof {
                    assert(last@.subrange(llen - elen, llen as int)[k as int] != ext@[k as int]);
                }
                matches = false;
            }
            k += 1;
        }
        if !matches {
            proof {
                assert(spec_remove_extension(self@, ext@) == self@);
            }
            return self.duplicate();
        }
        proof {
            assert(last@.subrange(llen - elen, llen as int).take(elen as int) =~= last@.subrange(
                llen - elen,
                llen as int,
            ));
            assert(ext@.take(elen as int) =~= ext@);
            assert(last@.subrange(llen - elen, llen as int) == ext@);
        }
        let trimmed = chars_to_string_range_str(last.as_str(), 0, llen - elen);
        let keep = !seg_dropped_exec(&trimmed) && !seg_is_dotdot_exec(&trimmed);
        if keep {
            let mut parts: Vec<String> = Vec::new();
            let mut i: usize = 0;
            let n = self.parts.len();
            proof {
                assert(n == self.parts@.len());
                assert(segs_view(parts@) =~~= self@.take(0));
            }
            while i < n - 1
                invariant
                    n == self.parts@.len(),
                    n >= 1,
                    i < self.parts@.len(),
                    parts@.len() == i,
                    self@.len() == self.parts@.len(),
                    segs_view(parts@) == self@.take(i as int),
                decreases self.parts@.len() - i,
            {
                parts.push(self.parts[i].clone());
                i += 1;
                proof {
                    assert(segs_view(parts@) =~~= self@.take(i as int));
                }
            }
            parts.push(trimmed);
            proof {
                assert(segs_view(parts@) =~~= self@.take(self@.len() - 1).push(
                    self@.last().subrange(0, self@.last().len() - ext@.len()),
                ));
                assert(wf_segs(segs_view(parts@)));
                assert(segs_view(parts@) =~~= spec_remove_extension(self@, ext@));
            }
            UrlPath { parts }
        } else {
            proof {
                assert(spec_remove_extension(self@, ext@) == self@);
            }
            self.duplicate()
        }
    }

    /// The segments, as owned strings.
    pub fn raw_parts(&self) -> (r: Vec<String>)
        ensures
            segs_view(r@) == self@,
    {
        let mut out: Vec<String> = Vec::new();
        let mut i: usize = 0;
        proof {
            assert(segs_view(out@) =~~= self@.take(0));
        }
        while i < self.parts.len()
            invariant
                i <= self.parts@.len(),
                out@.len() == i,
                segs_view(out@) == self@.take(i as int),
            decreases self.parts@.len() - i,
        {
            out.push(self.parts[i].clone());
            i += 1;
            proof {
                assert(segs_view(out@) =~~= self@.take(i as int));
            }
        }
        proof {
            assert(segs_view(out@) =~~= self@);
        }
        out
    }

    /// The raw rendering: the segments joined by `/`, with no escaping.
    pub fn to_raw_string(&self) -> (r: String)
        ensures
            r@ == join_segs(self@),
    {
        join_with_slash(&self.parts)
    }

    /// The segments, each percent-encoded for use in URLs and file paths.
    pub fn url_safe_parts(&self) -> (r: Vec<String>)
        ensures
            segs_view(r@) == encoded_segs(self@),
    {
        let mut out: Vec<String> = Vec::new();
        let mut i: usize = 0;
        proof {
            assert(segs_view(out@) =~= encoded_segs(self@).take(0));
        }
        while i < self.parts.len()
            invariant
                i <= self.parts@.len(),
                out@.len() == i,
                self@ == segs_view(self.parts@),
                segs_view(out@) == encoded_segs(self@).take(i as int),
            decreases self.parts@.len() - i,
        {
            out.push(url_encode(self.parts[i].as_str()));
            i += 1;
            proof {
                assert(segs_view(out@) =~= encoded_segs(self@).take(i as int));
            }
        }
        proof {
            assert(segs_view(out@) =~= encoded_segs(self@));
        }
        out
    }

    /// The encoded rendering used for links: a leading `/`, then the
    /// percent-encoded segments joined by `/`.
    pub fn to_encoded_string(&self) -> (r: String)
        ensures
            r@ == seq!['/'] + join_segs(encoded_segs(self@)),
    {
        let parts = self.url_safe_parts();
        let joined = join_with_slash(&parts);
        let mut out = String::new();
        push_char(&mut out, '/');
        out.append(joined.as_str());
        proof {
            assert(out@ =~= seq!['/'] + join_segs(encoded_segs(self@)));
        }
        out
    }

    /// The last segment, percent-encoded.
    pub fn file_name(&self) -> (r: Option<String>)
        ensures
            self@.len() == 0 ==> r is None,
            self@.len() > 0 ==> r is Some && r->0@ == url_encoded_seg(self@.last()),
    {
        if self.parts.len() == 0 {
            None
        } else {
            Some(url_encode(self.parts[self.parts.len() - 1].as_str()))
        }
    }

    /// The last segment, unencoded.
    pub fn raw_file_name(&self) -> (r: Option<String>)
        ensures
            self@.len() == 0 ==> r is None,
            self@.len() > 0 ==> r is Some && r->0@ == self@.last(),
    {
        if self.parts.len() == 0 {
            None
        } else {
            Some(self.parts[self.parts.len() - 1].clone())
        }
    }

    /// This path joined under the configured output base; without a base
    /// the path itself.
    pub fn to_absolute(&self, output_url: &Option<UrlPath>) -> (r: UrlPath)
        ensures
            match output_url {
                Some(base) => r@ == base@ + self@,
                None => r@ == self@,
            },
    {
        match output_url {
            Some(base) => base.join(self),
            None => self.duplicate(),
        }
    }
}

/// The path with the extension removed from its last segment: when the
/// last segment ends with the extension and stripping it leaves a valid
/// segment, that segment is shortened; otherwise the path is unchanged.
pub open spec fn spec_remove_extension(ss: Seq<Seq<char>>, ext: Seq<char>) -> Seq<Seq<char>> {
    if ss.len() > 0 && ext.len() <= ss.last().len() && ss.last().subrange(
        ss.last().len() - ext.len(),
        ss.last().len() as int,
    ) == ext && seg_kept(ss.last().subrange(0, ss.last().len() - ext.len())) {
        ss.take(ss.len() - 1).push(ss.last().subrange(0, ss.last().len() - ext.len()))
    } else {
        ss
    }
}

/// The percent-encoded views of every segment.
pub open spec fn encoded_segs(ss: Seq<Seq<char>>) -> Seq<Seq<char>> {
    Seq::new(ss.len(), |i: int| url_encoded_seg(ss[i]))
}

/// The string holding the characters from `from` up to `to` of a slice.
fn chars_to_string_range_str(s: &str, from: usize, to: usize) -> (r: String)
    requires
        from <= to <= s@.len(),
    ensures
        r@ == s@.subrange(from as int, to as int),
{
    let mut out = String::new();
    let mut k = from;
    while k < to
        invariant
            from <= k <= to <= s@.len(),
            out@ == s@.subrange(from as int, k as int),
        decreases to - k,
    {
        push_char(&mut out, s.get_char(k));
        k += 1;
        proof {
            assert(out@ =~= s@.subrange(from as int, k as int));
        }
    }
    out
}

/// Whether two strings hold the same characters.
pub fn string_eq(a: &String, b: &String) -> (r: bool)
    ensures
        r == (a@ == b@),
{
    a.eq(b)
}

/// The strings joined by `/`.
fn join_with_slash(parts: &Vec<String>) -> (r: String)
    ensures
        r@ == join_segs(segs_view(parts@)),
{
    let mut out = String::new();
    let mut i: usize = 0;
    proof {
        assert(segs_view(parts@).take(0) =~= Seq::<Seq<char>>::empty());
    }
    while i < parts.len()
        invariant
            i <= parts@.len(),
            out@ == join_segs(segs_view(parts@).take(i as int)),
        decreases parts@.len() - i,
    {
        if i > 0 {
            push_char(&mut out, '/');
        }
        out.append(parts[i].as_str());
        i += 1;
        proof {
            assert(segs_view(parts@).take(i as int).drop_last() =~= segs_view(parts@).take(
                i - 1,
            ));
            lemma_join_segs_snoc(segs_view(parts@).take(i - 1), parts@[i - 1]@);
            assert(segs_view(parts@).take(i as int) =~= segs_view(parts@).take(i - 1).push(
                parts@[i - 1]@,
            ));
            assert(out@ =~= join_segs(segs_view(parts@).take(i as int)));
        }
    }
    proof {
        assert(segs_view(parts@).take(parts@.len() as int) =~= segs_view(parts@));
    }
    out
}

/// Whether the string is empty or the one-character segment `.`.
fn seg_dropped_exec(s: &String) -> (r: bool)
    ensures
        r == (s@.len() == 0 || s@ == dot_seg()),
{
    let n = s.as_str().unicode_len();
    if n == 0 {
        return true;
    }
    if n == 1 && s.as_str().get_char(0) == '.' {
        proof {
            assert(s@ =~= dot_seg());
        }
        return true;
    }
    proof {
        if s@ == dot_seg() {
            assert(s@.len() == 1 && s@[0] == '.');
        }
    }
    false
}

/// Whether the string is the two-character segment `..`.
fn seg_is_dotdot_exec(s: &String) -> (r: bool)
    ensures
        r == (s@ == dotdot_seg()),
{
    let n = s.as_str().unicode_len();
    if n == 2 && s.as_str().get_char(0) == '.' && s.as_str().get_char(1) == '.' {
        proof {
            assert(s@ =~= dotdot_seg());
        }
        true
    } else {
        proof {
            if s@ == dotdot_seg() {
                assert(s@.len() == 2 && s@[0] == '.' && s@[1] == '.');
            }
        }
        false
    }
}

/// The normalized copy of a segment vector.
fn clean_vec(parts: &Vec<String>) -> (r: Vec<String>)
    ensures
        segs_view(r@) == clean_segs(segs_view(parts@)),
{
    let mut out: Vec<String> = Vec::new();
    let mut i: usize = 0;
    proof {
        assert(segs_view(out@) =~= clean_segs(segs_view(parts@).take(0)));
    }
    while i < parts.len()
        invariant
            i <= parts@.len(),
            segs_view(out@) == clean_segs(segs_view(parts@).take(i as int)),
        decreases parts@.len() - i,
    {
        let ghost pre = segs_view(parts@).take(i as int);
        let p = &parts[i];
        if seg_dropped_exec(p) {
            // dropped
        } else if seg_is_dotdot_exec(p) {
            if out.len() > 0 {
                out.pop();
            }
        } else {
            out.push(p.clone());
        }
        i += 1;
        proof {
            let cur = segs_view(parts@).take(i as int);
            assert(cur.drop_last() =~= pre);
            assert(cur.last() == parts@[i - 1]@);
            if !(p@.len() == 0 || p@ == dot_seg()) && p@ != dotdot_seg() {
                assert(segs_view(out@) =~= clean_segs(pre).push(p@));
            } else if p@ == dotdot_seg() {
                assert(segs_view(out@) =~= pop_seg(clean_segs(pre)));
            }
            assert(segs_view(out@) =~= clean_segs(cur));
        }
    }
    proof {
        assert(segs_view(parts@).take(parts@.len() as int) =~= segs_view(parts@));
    }
    out
}

/// The first index at or after `from` holding `/`, or the length.
fn find_slash(chars: &Vec<char>, from: usize) -> (r: usize)
    requires
        from <= chars@.len(),
    ensures
        r == first_slash(chars@, from as int),
{
    let mut j = from;
    while j < chars.len()
        invariant
            from <= j <= chars@.len(),
            first_slash(chars@, from as int) == first_slash(chars@, j as int),
        decreases chars@.len() - j,
    {
        if chars[j] == '/' {
            return j;
        }
        j += 1;
    }
    j
}

/// The string holding the characters from `from` up to `to`.
fn chars_to_string_range(chars: &Vec<char>, from: usize, to: usize) -> (r: String)
    requires
        from <= to <= chars@.len(),
    ensures
        r@ == chars@.subrange(from as int, to as int),
{
    let mut out = String::new();
    let mut k = from;
    while k < to
        invariant
            from <= k <= to <= chars@.len(),
            out@ == chars@.subrange(from as int, k as int),
        decreases to - k,
    {
        push_char(&mut out, chars[k]);
        k += 1;
        proof {
            assert(out@ =~= chars@.subrange(from as int, k as int));
        }
    }
    out
}

/// The segments of the character sequence split on `/`.
fn split_slash_exec(chars: &Vec<char>) -> (r: Vec<String>)
    ensures
        segs_view(r@) == split_slash(chars@, 0),
{
    let mut out: Vec<String> = Vec::new();
    let mut from: usize = 0;
    proof {
        assert(segs_view(out@) + split_slash(chars@, 0) =~= split_slash(chars@, 0));
    }
    loop
        invariant_except_break
            from <= chars@.len(),
            split_slash(chars@, 0) == segs_view(out@) + split_slash(chars@, from as int),
        ensures
            segs_view(out@) == split_slash(chars@, 0),
        decreases chars@.len() - from,
    {
        let i = find_slash(chars, from);
        proof {
            lemma_first_slash_bounds(chars@, from as int);
        }
        let seg = chars_to_string_range(chars, from, i);
        out.push(seg);
        if i < chars.len() {
            proof {
                assert(split_slash(chars@, from as int) =~= seq![
                    chars@.subrange(from as int, i as int),
                ] + split_slash(chars@, i + 1));
                assert(segs_view(out@) =~= segs_view(out@.drop_last()).push(
                    chars@.subrange(from as int, i as int),
                ));
                assert(split_slash(chars@, 0) =~= segs_view(out@) + split_slash(
                    chars@,
                    i + 1,
                ));
            }
            from = i + 1;
        } else {
            proof {
                assert(split_slash(chars@, from as int) =~= seq![
                    chars@.subrange(from as int, chars@.len() as int),
                ]);
                assert(segs_view(out@) =~= segs_view(out@.drop_last()).push(
                    chars@.subrange(from as int, chars@.len() as int),
                ));
                assert(segs_view(out@) =~= split_slash(chars@, 0));
            }
            break;
        }
    }
    out
}

/// Parsing the raw rendering of a path round-trips: for any segment list
/// whose segments hold no `/` and are not `.` or `..`, parsing the raw
/// string of the constructed path yields exactly the constructed path.
pub proof fn lemma_parse_to_string_round_trip(segs: Seq<Seq<char>>)
    requires
        forall|i: int|
            0 <= i < segs.len() ==> slash_free(#[trigger] segs[i]) && segs[i] != dot_seg()
                && segs[i] != dotdot_seg(),
    ensures
        clean_segs(split_slash(join_segs(clean_segs(segs)), 0)) == clean_segs(segs),
{
    let c = clean_segs(segs);
    lemma_clean_segs_wf(segs);
    lemma_clean_segs_slash_free(segs);
    if c.len() == 0 {
        let j = join_segs(c);
        assert(j =~= Seq::<char>::empty());
        lemma_first_slash_bounds(j, 0);
        assert(first_slash(j, 0) == 0);
        assert(split_slash(j, 0) =~~= seq![Seq::<char>::empty()]);
        let sp = split_slash(j, 0);
        assert(sp.drop_last() =~= Seq::<Seq<char>>::empty());
        assert(clean_segs(sp.drop_last()) =~= Seq::<Seq<char>>::empty());
        assert(sp.last().len() == 0);
        assert(clean_segs(sp) =~= c);
    } else {
        let j = join_segs(c);
        assert(j.subrange(0, j.len() as int) =~= j);
        lemma_split_of_join_suffix(j, 0, c);
        lemma_clean_segs_of_wf(c);
    }
}

} // verus!
