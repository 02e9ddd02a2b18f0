//! Scanning narrative text for link annotations.
//!
//! A text is tokenized once into its maximal alphanumeric runs, each with its
//! character range. A consumer walks the tokens, claims some of them by
//! attaching a replacement, and finally materializes the rewritten text: the
//! replacements are applied in left-to-right order over the original, so each
//! one lands at its position as shifted by all earlier replacements.

use vstd::prelude::*;

use crate::strings::char_alphanumeric;
use crate::strings::chars_vec;
use crate::strings::is_alphanumeric_char;
use crate::strings::string_from_chars;

verus! {

/// The mathematical model of one annotation: a token's character range in
/// the original text and its replacement, when one was attached.
pub struct AnnModel {
    pub start: int,
    pub text: Seq<char>,
    pub value: Option<Seq<char>>,
}

/// The first index at or after `from` holding an alphanumeric character, or
/// the length when there is none.
pub open spec fn next_word_start(s: Seq<char>, from: int) -> int
    decreases s.len() - from when 0 <= from <= s.len()
{
    if from >= s.len() {
        s.len() as int
    } else if char_alphanumeric(s[from]) {
        from
    } else {
        next_word_start(s, from + 1)
    }
}

/// The first index at or after `from` holding a non-alphanumeric character,
/// or the length when there is none.
pub open spec fn word_end(s: Seq<char>, from: int) -> int
    decreases s.len() - from when 0 <= from <= s.len()
{
    if from >= s.len() {
        s.len() as int
    } else if !char_alphanumeric(s[from]) {
        from
    } else {
        word_end(s, from + 1)
    }
}

pub proof fn lemma_next_word_start_bounds(s: Seq<char>, from: int)
    requires
        0 <= from <= s.len(),
    ensures
        from <= next_word_start(s, from) <= s.len(),
        next_word_start(s, from) < s.len() ==> char_alphanumeric(s[next_word_start(s, from)]),
        forall|j: int| from <= j < next_word_start(s, from) ==> !char_alphanumeric(s[j]),
    decreases s.len() - from,
{
    if from < s.len() && !char_alphanumeric(s[from]) {
        lemma_next_word_start_bounds(s, from + 1);
    }
}

pub proof fn lemma_word_end_bounds(s: Seq<char>, from: int)
    requires
        0 <= from <= s.len(),
    ensures
        from <= word_end(s, from) <= s.len(),
        word_end(s, from) < s.len() ==> !char_alphanumeric(s[word_end(s, from)]),
        forall|j: int| from <= j < word_end(s, from) ==> char_alphanumeric(s[j]),
    decreases s.len() - from,
{
    if from < s.len() && char_alphanumeric(s[from]) {
        lemma_word_end_bounds(s, from + 1);
    }
}

/// The tokens of the text from `from` on: each maximal alphanumeric run,
/// with its range, in order, and no replacement attached yet.
pub open spec fn tokens_from(s: Seq<char>, from: int) -> Seq<AnnModel>
    decreases s.len() - from when 0 <= from <= s.len() via tokens_from_decreases
{
    let st = next_word_start(s, from);
    if st < s.len() {
        let en = word_end(s, st);
        seq![AnnModel { start: st, text: s.subrange(st, en), value: None }] + tokens_from(s, en)
    } else {
        Seq::empty()
    }
}

#[via_fn]
proof fn tokens_from_decreases(s: Seq<char>, from: int) {
    lemma_next_word_start_bounds(s, from);
    let st = next_word_start(s, from);
    if st < s.len() {
        lemma_word_end_bounds(s, st);
    }
}

/// The tokens of the whole text.
pub open spec fn tokens(s: Seq<char>) -> Seq<AnnModel> {
    tokens_from(s, 0)
}

/// A freshly tokenized text has no replacement attached anywhere.
pub proof fn lemma_tokens_from_unclaimed(s: Seq<char>, from: int)
    requires
        0 <= from <= s.len(),
    ensures
        forall|k: int|
            0 <= k < tokens_from(s, from).len() ==> (#[trigger] tokens_from(s, from)[k]).value
                is None,
    decreases s.len() - from,
{
    lemma_next_word_start_bounds(s, from);
    let st = next_word_start(s, from);
    if st < s.len() {
        lemma_word_end_bounds(s, st);
        lemma_tokens_from_unclaimed(s, word_end(s, st));
    }
}

/// A freshly tokenized text has no replacement attached anywhere.
pub proof fn lemma_tokens_unclaimed(s: Seq<char>)
    ensures
        forall|k: int|
            0 <= k < tokens(s).len() ==> (#[trigger] tokens(s)[k]).value is None,
{
    lemma_tokens_from_unclaimed(s, 0);
}

/// The annotations stand in order after position `from`, each within the
/// text's bounds.
pub open spec fn anns_wf(s: Seq<char>, anns: Seq<AnnModel>, from: int) -> bool
    decreases anns.len(),
{
    if anns.len() == 0 {
        0 <= from <= s.len()
    } else {
        let a = anns.first();
        0 <= from <= a.start && a.start + a.text.len() <= s.len() && anns_wf(
            s,
            anns.drop_first(),
            a.start + a.text.len(),
        )
    }
}

/// The tokens of a text are well-formed annotations.
pub proof fn lemma_tokens_from_wf(s: Seq<char>, from: int)
    requires
        0 <= from <= s.len(),
    ensures
        anns_wf(s, tokens_from(s, from), from),
    decreases s.len() - from,
{
    lemma_next_word_start_bounds(s, from);
    let st = next_word_start(s, from);
    if st < s.len() {
        lemma_word_end_bounds(s, st);
        let en = word_end(s, st);
        lemma_tokens_from_wf(s, en);
        assert(tokens_from(s, from).drop_first() =~= tokens_from(s, en));
    }
}

/// Well-formedness does not depend on the attached replacements.
pub proof fn lemma_anns_wf_values_irrelevant(
    s: Seq<char>,
    a: Seq<AnnModel>,
    b: Seq<AnnModel>,
    from: int,
)
    requires
        a.len() == b.len(),
        forall|k: int|
            0 <= k < a.len() ==> (#[trigger] b[k]).start == a[k].start && b[k].text == a[k].text,
        anns_wf(s, a, from),
    ensures
        anns_wf(s, b, from),
    decreases a.len(),
{
    if a.len() > 0 {
        assert(forall|k: int|
            0 <= k < a.drop_first().len() ==> (#[trigger] b.drop_first()[k]).start
                == a.drop_first()[k].start && b.drop_first()[k].text == a.drop_first()[k].text);
        lemma_anns_wf_values_irrelevant(
            s,
            a.drop_first(),
            b.drop_first(),
            a.first().start + a.first().text.len(),
        );
    }
}

/// The rewritten text from position `from` on: the unclaimed stretches of
/// the original interleaved with the replacements of the claimed tokens, in
/// their original order.
pub open spec fn apply_from(s: Seq<char>, anns: Seq<AnnModel>, from: int) -> Seq<char>
    decreases anns.len(),
{
    if anns.len() == 0 {
        s.subrange(from, s.len() as int)
    } else {
        let a = anns.first();
        match a.value {
            None => apply_from(s, anns.drop_first(), from),
            Some(v) => s.subrange(from, a.start) + v + apply_from(
                s,
                anns.drop_first(),
                a.start + a.text.len(),
            ),
        }
    }
}

/// With no replacement attached anywhere, the text comes back unchanged.
pub proof fn lemma_apply_unclaimed(s: Seq<char>, anns: Seq<AnnModel>, from: int)
    requires
        forall|k: int| 0 <= k < anns.len() ==> (#[trigger] anns[k]).value is None,
    ensures
        apply_from(s, anns, from) == s.subrange(from, s.len() as int),
    decreases anns.len(),
{
    if anns.len() > 0 {
        assert(forall|k: int|
            0 <= k < anns.drop_first().len() ==> (#[trigger] anns.drop_first()[k]).value is None);
        lemma_apply_unclaimed(s, anns.drop_first(), from);
    }
}

/// The first index at or after `i` whose token has no replacement yet, or
/// the number of tokens.
pub open spec fn next_unclaimed(anns: Seq<AnnModel>, i: int) -> int
    decreases anns.len() - i when 0 <= i <= anns.len()
{
    if i >= anns.len() {
        anns.len() as int
    } else if anns[i].value is None {
        i
    } else {
        next_unclaimed(anns, i + 1)
    }
}

pub proof fn lemma_next_unclaimed_bounds(anns: Seq<AnnModel>, i: int)
    requires
        0 <= i <= anns.len(),
    ensures
        i <= next_unclaimed(anns, i) <= anns.len(),
        next_unclaimed(anns, i) < anns.len() ==> anns[next_unclaimed(anns, i)].value is None,
        forall|j: int| i <= j < next_unclaimed(anns, i) ==> (#[trigger] anns[j]).value is Some,
    decreases anns.len() - i,
{
    if i < anns.len() && anns[i].value is Some {
        lemma_next_unclaimed_bounds(anns, i + 1);
    }
}

/// One token of a text, with its character range and, once the consumer has
/// claimed it, its replacement.
struct Annotation {
    raw: String,
    start: usize,
    value: Option<String>,
}

impl View for Annotation {
    type V = AnnModel;

    closed spec fn view(&self) -> AnnModel {
        AnnModel {
            start: self.start as int,
            text: self.raw@,
            value: match self.value {
                Some(v) => Some(v@),
                None => None,
            },
        }
    }
}

/// The tokens of one text, walked and claimed by a consumer, then
/// materialized once into the rewritten text.
pub struct Annotations {
    raw: Vec<char>,
    next_in_iter: usize,
    annotations: Vec<Annotation>,
}

impl Annotations {
    /// The original text.
    pub closed spec fn text(&self) -> Seq<char> {
        self.raw@
    }

    /// The annotations, as their models.
    pub closed spec fn anns(&self) -> Seq<AnnModel> {
        Seq::new(self.annotations@.len(), |i: int| self.annotations@[i]@)
    }

    /// The walk position: tokens before it have been passed over.
    pub closed spec fn cursor(&self) -> int {
        self.next_in_iter as int
    }

    /// The annotations are in order and within the text, and the walk
    /// position is within the token list. Constructors establish this and
    /// every method keeps it.
    pub closed spec fn wf(&self) -> bool {
        anns_wf(self.raw@, self.anns(), 0) && self.next_in_iter <= self.annotations@.len()
    }

    /// Tokenizes a text: each annotation is one maximal alphanumeric run,
    /// in order, with no replacement attached.
    pub fn new(raw: &str) -> (r: Annotations)
        ensures
            r.wf(),
            r.text() == raw@,
            r.anns() == tokens(raw@),
            r.cursor() == 0,
    {
        let chars = chars_vec(raw);
        let annotations = create_annotations(&chars);
        proof {
            lemma_tokens_from_wf(chars@, 0);
        }
        Annotations { raw: chars, next_in_iter: 0, annotations }
    }

    /// Restarts the walk at the first token.
    pub fn rewind(&mut self)
        requires
            old(self).wf(),
        ensures
            final(self).wf(),
            final(self).text() == old(self).text(),
            final(self).anns() == old(self).anns(),
            final(self).cursor() == 0,
    {
        self.next_in_iter = 0;
    }

    /// Advances to the next token that has no replacement yet and returns
    /// its text; the walk position ends just past it. With none left, the
    /// walk position ends past the end and nothing is returned.
    pub fn next(&mut self) -> (r: Option<String>)
        requires
            old(self).wf(),
        ensures
            final(self).wf(),
            final(self).text() == old(self).text(),
            final(self).anns() == old(self).anns(),
            ({
                let idx = next_unclaimed(old(self).anns(), old(self).cursor());
                if idx < old(self).anns().len() {
                    r is Some && r->0@ == old(self).anns()[idx].text && final(self).cursor() == idx
                        + 1
                } else {
                    r is None && final(self).cursor() == idx
                }
            }),
    {
        proof {
            lemma_next_unclaimed_bounds(self.anns(), self.cursor());
        }
        let mut i = self.next_in_iter;
        loop
            invariant_except_break
                self.next_in_iter as int <= i as int <= self.annotations@.len(),
                next_unclaimed(self.anns(), self.next_in_iter as int) == next_unclaimed(
                    self.anns(),
                    i as int,
                ),
            ensures
                i as int == next_unclaimed(self.anns(), self.next_in_iter as int) || (i
                    == self.annotations@.len() && next_unclaimed(
                    self.anns(),
                    self.next_in_iter as int,
                ) == self.annotations@.len()),
            decreases self.annotations@.len() - i,
        {
            if i >= self.annotations.len() {
                break;
            }
            if self.annotations[i].value.is_none() {
                proof {
                    assert(self.anns()[i as int].value is None);
                }
                break;
            }
            proof {
                assert(self.anns()[i as int].value is Some);
            }
            i += 1;
        }
        if i < self.annotations.len() {
            self.next_in_iter = i + 1;
            Some(self.annotations[i].raw.clone())
        } else {
            self.next_in_iter = i;
            None
        }
    }

    /// Claims the token that `next` last returned, attaching its
    /// replacement.
    pub fn annotate(&mut self, value: String)
        requires
            old(self).wf(),
            1 <= old(self).cursor() <= old(self).anns().len(),
        ensures
            final(self).wf(),
            final(self).text() == old(self).text(),
            final(self).cursor() == old(self).cursor(),
            final(self).anns() == old(self).anns().update(
                old(self).cursor() - 1,
                AnnModel {
                    start: old(self).anns()[old(self).cursor() - 1].start,
                    text: old(self).anns()[old(self).cursor() - 1].text,
                    value: Some(value@),
                },
            ),
    {
        let ghost olda = self.anns();
        let idx = self.next_in_iter - 1;
        self.annotations[idx].value = Some(value);
        proof {
            assert(self.anns() =~= olda.update(
                idx as int,
                AnnModel { start: olda[idx as int].start, text: olda[idx as int].text, value: Some(value@) },
            ));
            lemma_anns_wf_values_irrelevant(self.raw@, olda, self.anns(), 0);
        }
    }

    /// Materializes the rewritten text: replacements are spliced over their
    /// tokens in left-to-right order, each landing at its position as
    /// shifted by the length differences of all earlier replacements.
    pub fn into_result(self) -> (r: String)
        requires
            self.wf(),
        ensures
            r@ == apply_from(self.text(), self.anns(), 0),
    {
        let Annotations { raw, next_in_iter: _, annotations } = self;
        let ghost s = raw@;
        let total = raw.len();
        proof {
            assert(s.len() == total);
        }
        let ghost all = Seq::new(annotations@.len(), |k: int| annotations@[k]@);
        let mut out: Vec<char> = Vec::new();
        let mut pos: usize = 0;
        let mut i: usize = 0;
        proof {
            assert(all.skip(0) =~= all);
            assert(out@ + apply_from(s, all, 0) =~= apply_from(s, all, 0));
        }
        while i < annotations.len()
            invariant
                i <= annotations@.len(),
                all == Seq::new(annotations@.len(), |k: int| annotations@[k]@),
                s == raw@,
                s.len() <= usize::MAX,
                anns_wf(s, all.skip(i as int), pos as int),
                out@ + apply_from(s, all.skip(i as int), pos as int) == apply_from(s, all, 0),
            decreases annotations@.len() - i,
        {
            let ghost rest = all.skip(i as int);
            proof {
                assert(rest.first() == annotations@[i as int]@);
                assert(rest.drop_first() =~= all.skip(i + 1));
            }
            match &annotations[i].value {
                Option::None => {
                    proof {
                        assert(apply_from(s, rest, pos as int) == apply_from(
                            s,
                            rest.drop_first(),
                            pos as int,
                        ));
                        lemma_anns_wf_weaken(
                            s,
                            rest.drop_first(),
                            pos as int,
                            rest.first().start + rest.first().text.len(),
                        );
                    }
                    i += 1;
                }
                Option::Some(v) => {
                    let st = annotations[i].start;
                    let tok_len = annotations[i].raw.as_str().unicode_len();
                    proof {
                        assert(rest.first().start + rest.first().text.len() <= s.len());
                        assert(st + tok_len <= s.len());
                    }
                    let ghost prefix = out@;
                    let mut k = pos;
                    while k < st
                        invariant
                            pos <= k <= st <= raw@.len(),
                            out@ == prefix + raw@.subrange(pos as int, k as int),
                        decreases st - k,
                    {
                        out.push(raw[k]);
                        k += 1;
                        proof {
                            assert(out@ =~= prefix + raw@.subrange(pos as int, k as int));
                        }
                    }
                    let mut vchars = chars_vec(v.as_str());
                    out.append(&mut vchars);
                    proof {
                        assert(out@ =~= prefix + (s.subrange(pos as int, st as int)
                            + rest.first().value->0));
                    }
                    i += 1;
                    pos = st + tok_len;
                    proof {
                        assert(apply_from(s, rest, st + rest.first().text.len()
                            - rest.first().text.len()) == apply_from(s, rest, pos
                            - rest.first().text.len()));
                        assert(out@ + apply_from(s, all.skip(i as int), pos as int)
                            =~= apply_from(s, all, 0));
                    }
                }
            }
        }
        proof {
            assert(all.skip(annotations@.len() as int) =~= Seq::<AnnModel>::empty());
        }
        let ghost prefix = out@;
        let mut k = pos;
        while k < raw.len()
            invariant
                pos <= k <= raw@.len(),
                out@ == prefix + raw@.subrange(pos as int, k as int),
            decreases raw@.len() - k,
        {
            out.push(raw[k]);
            k += 1;
            proof {
                assert(out@ =~= prefix + raw@.subrange(pos as int, k as int));
            }
        }
        proof {
            assert(out@ =~= apply_from(s, all, 0));
        }
        string_from_chars(out.as_slice())
    }
}

/// Weakening: annotations in order after `from2` are also in order after any
/// earlier position.
pub proof fn lemma_anns_wf_weaken(s: Seq<char>, anns: Seq<AnnModel>, from: int, from2: int)
    requires
        anns_wf(s, anns, from2),
        0 <= from <= from2,
    ensures
        anns_wf(s, anns, from),
{
}

/// The tokens of the character sequence, as annotation records.
fn create_annotations(chars: &Vec<char>) -> (r: Vec<Annotation>)
    ensures
        Seq::new(r@.len(), |i: int| r@[i]@) == tokens(chars@),
{
    let mut out: Vec<Annotation> = Vec::new();
    let mut from: usize = 0;
    proof {
        assert(Seq::new(out@.len(), |i: int| out@[i]@) + tokens_from(chars@, 0) =~= tokens(
            chars@,
        ));
    }
    loop
        invariant_except_break
            from <= chars@.len(),
            Seq::new(out@.len(), |i: int| out@[i]@) + tokens_from(chars@, from as int) == tokens(
                chars@,
            ),
        ensures
            Seq::new(out@.len(), |i: int| out@[i]@) == tokens(chars@),
        decreases chars@.len() - from,
    {
        let st = find_word_start(chars, from);
        proof {
            lemma_next_word_start_bounds(chars@, from as int);
        }
        if st >= chars.len() {
            proof {
                assert(tokens_from(chars@, from as int) =~= Seq::<AnnModel>::empty());
                assert(Seq::new(out@.len(), |i: int| out@[i]@) =~= tokens(chars@));
            }
            break;
        }
        let en = find_word_end(chars, st);
        proof {
            lemma_word_end_bounds(chars@, st as int);
        }
        let text = chars_range_string(chars, st, en);
        let ghost oldmodels = Seq::new(out@.len(), |i: int| out@[i]@);
        out.push(Annotation { raw: text, start: st, value: None });
        proof {
            let models = Seq::new(out@.len(), |i: int| out@[i]@);
            assert(models =~= oldmodels.push(
                AnnModel {
                    start: st as int,
                    text: chars@.subrange(st as int, en as int),
                    value: None,
                },
            ));
            assert(tokens_from(chars@, from as int) =~= seq![
                AnnModel {
                    start: st as int,
                    text: chars@.subrange(st as int, en as int),
                    value: None,
                },
            ] + tokens_from(chars@, en as int));
            assert(models + tokens_from(chars@, en as int) =~= tokens(chars@));
        }
        from = en;
    }
    out
}

/// The first index at or after `from` holding an alphanumeric character.
fn find_word_start(chars: &Vec<char>, from: usize) -> (r: usize)
    requires
        from <= chars@.len(),
    ensures
        r == next_word_start(chars@, from as int),
{
    let mut j = from;
    while j < chars.len()
        invariant
            from <= j <= chars@.len(),
            next_word_start(chars@, from as int) == next_word_start(chars@, j as int),
        decreases chars@.len() - j,
    {
        if is_alphanumeric_char(chars[j]) {
            return j;
        }
        j += 1;
    }
    j
}

/// The first index at or after `from` holding a non-alphanumeric character.
fn find_word_end(chars: &Vec<char>, from: usize) -> (r: usize)
    requires
        from <= chars@.len(),
    ensures
        r == word_end(chars@, from as int),
{
    let mut j = from;
    while j < chars.len()
        invariant
            from <= j <= chars@.len(),
            word_end(chars@, from as int) == word_end(chars@, j as int),
        decreases chars@.len() - j,
    {
        if !is_alphanumeric_char(chars[j]) {
            return j;
        }
        j += 1;
    }
    j
}

/// The string holding the characters from `from` up to `to`.
fn chars_range_string(chars: &Vec<char>, from: usize, to: usize) -> (r: String)
    requires
        from <= to <= chars@.len(),
    ensures
        r@ == chars@.subrange(from as int, to as int),
{
    let mut out: Vec<char> = Vec::new();
    let mut k = from;
    while k < to
        invariant
            from <= k <= to <= chars@.len(),
            out@ == chars@.subrange(from as int, k as int),
        decreases to - k,
    {
        out.push(chars[k]);
        k += 1;
        proof {
            assert(out@ =~= chars@.subrange(from as int, k as int));
        }
    }
    string_from_chars(out.as_slice())
}

} // verus!
