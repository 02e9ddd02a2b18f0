//! The autolink engine: rewrites bare mentions of symbol names in narrative
//! text into markdown links, without corrupting text offsets.
//!
//! The text is tokenized once. The symbol graph is walked once, depth first;
//! for each symbol the first not-yet-claimed token equal to its simple name
//! is claimed and replaced by a link to the symbol's absolute URL. Tokens
//! consisting entirely of lowercase characters are never linked, so common
//! words stay plain text. When several symbols share a name, the symbol
//! reached first in the walk wins.

use vstd::prelude::*;

use crate::annotations::AnnModel;
use crate::annotations::Annotations;
use crate::annotations::apply_from;
use crate::annotations::lemma_apply_unclaimed;
use crate::annotations::tokens;
use crate::config::Config;
use crate::linker::abs_docs_url;
use crate::linker::spec_abs_docs_url;
use crate::linker::spec_base;
use crate::strings::all_lowercase;
use crate::strings::chars_vec;
use crate::strings::is_all_lowercase;
use crate::strings::push_char;
use crate::symbol::SymModel;
use crate::symbol::Symbol;
use crate::symbol::lemma_sym_models_index;
use crate::symbol::sym_models;
use crate::url_path::encoded_segs;
use crate::url_path::join_segs;
use crate::url_path::segs_view;

verus! {

broadcast use vstd::std_specs::vec::axiom_vec_decreases_to_view, vstd::seq::axiom_seq_index_decreases;

/// The markdown link that replaces a claimed token.
pub open spec fn link_text(word: Seq<char>, url: Seq<char>) -> Seq<char> {
    seq!['['] + word + seq![']', '('] + url + seq![')']
}

/// The display form of an absolute URL: a leading slash, then the
/// percent-encoded segments joined by slashes.
pub open spec fn url_display(u: Seq<Seq<char>>) -> Seq<char> {
    seq!['/'] + join_segs(encoded_segs(u))
}

/// The first token at or after `i` that is not yet claimed, is not
/// all-lowercase, and equals the name; the token count when there is none.
pub open spec fn first_match(anns: Seq<AnnModel>, name: Seq<char>, i: int) -> int
    decreases anns.len() - i when 0 <= i <= anns.len()
{
    if i >= anns.len() {
        anns.len() as int
    } else if anns[i].value is None && !all_lowercase(anns[i].text) && anns[i].text == name {
        i
    } else {
        first_match(anns, name, i + 1)
    }
}

pub proof fn lemma_first_match_bounds(anns: Seq<AnnModel>, name: Seq<char>, i: int)
    requires
        0 <= i <= anns.len(),
    ensures
        i <= first_match(anns, name, i) <= anns.len(),
        first_match(anns, name, i) < anns.len() ==> ({
            let k = first_match(anns, name, i);
            anns[k].value is None && !all_lowercase(anns[k].text) && anns[k].text == name
        }),
    decreases anns.len() - i,
{
    if i < anns.len() && !(anns[i].value is None && !all_lowercase(anns[i].text) && anns[i].text
        == name) {
        lemma_first_match_bounds(anns, name, i + 1);
    }
}

/// Skipping a stretch of claimed tokens does not move the first match.
pub proof fn lemma_first_match_skip_claimed(anns: Seq<AnnModel>, name: Seq<char>, i: int, j: int)
    requires
        0 <= i <= j <= anns.len(),
        forall|k: int| i <= k < j ==> (#[trigger] anns[k]).value is Some,
    ensures
        first_match(anns, name, i) == first_match(anns, name, j),
    decreases j - i,
{
    if i < j {
        lemma_first_match_skip_claimed(anns, name, i + 1, j);
    }
}

/// When no token's text equals the name, there is no match.
pub proof fn lemma_first_match_absent(anns: Seq<AnnModel>, name: Seq<char>, i: int)
    requires
        0 <= i <= anns.len(),
        forall|k: int| 0 <= k < anns.len() ==> (#[trigger] anns[k]).text != name,
    ensures
        first_match(anns, name, i) == anns.len(),
    decreases anns.len() - i,
{
    if i < anns.len() {
        lemma_first_match_absent(anns, name, i + 1);
    }
}

/// One symbol's pass over the tokens: the first claimable token equal to the
/// name is claimed with the link, every other token stays as it was.
pub open spec fn spec_link_one(anns: Seq<AnnModel>, name: Seq<char>, url: Seq<char>) -> Seq<
    AnnModel,
> {
    let i = first_match(anns, name, 0);
    if i < anns.len() {
        anns.update(
            i,
            AnnModel {
                start: anns[i].start,
                text: anns[i].text,
                value: Some(link_text(anns[i].text, url)),
            },
        )
    } else {
        anns
    }
}

/// The qualified name of a symbol under a prefix of enclosing names.
pub open spec fn quals_of(prefix: Seq<Seq<char>>, name: Seq<char>) -> Seq<Seq<char>> {
    prefix.push(name)
}

/// The token state after one symbol and, depth first, its children.
pub open spec fn spec_autolink_sym(
    anns: Seq<AnnModel>,
    sym: SymModel,
    prefix: Seq<Seq<char>>,
    base: Seq<Seq<char>>,
) -> Seq<AnnModel>
    decreases sym, 1int, 0int,
{
    let anns1 = match spec_abs_docs_url(sym.kind, quals_of(prefix, sym.name), sym.file, base) {
        Some(url) => spec_link_one(anns, sym.name, url_display(url)),
        None => anns,
    };
    if sym.kind is Namespace {
        spec_autolink_syms(anns1, sym.entries, quals_of(prefix, sym.name), base, 0)
    } else {
        anns1
    }
}

/// The token state after the symbols from index `i` on, in order.
pub open spec fn spec_autolink_syms(
    anns: Seq<AnnModel>,
    syms: Seq<SymModel>,
    prefix: Seq<Seq<char>>,
    base: Seq<Seq<char>>,
    i: int,
) -> Seq<AnnModel>
    decreases syms, 0int, syms.len() - i when 0 <= i <= syms.len() via spec_autolink_syms_decreases
{
    if i >= syms.len() {
        anns
    } else {
        spec_autolink_syms(
            spec_autolink_sym(anns, syms[i], prefix, base),
            syms,
            prefix,
            base,
            i + 1,
        )
    }
}

#[via_fn]
proof fn spec_autolink_syms_decreases(
    anns: Seq<AnnModel>,
    syms: Seq<SymModel>,
    prefix: Seq<Seq<char>>,
    base: Seq<Seq<char>>,
    i: int,
) {
    if 0 <= i < syms.len() {
        vstd::seq::axiom_seq_index_decreases(syms, i);
    }
}

/// One symbol's pass keeps every token's range and text, touches no claimed
/// token, and claims nothing all-lowercase.
pub proof fn lemma_link_one_preserves(anns: Seq<AnnModel>, name: Seq<char>, url: Seq<char>)
    ensures
        spec_link_one(anns, name, url).len() == anns.len(),
        forall|k: int|
            0 <= k < anns.len() ==> (#[trigger] spec_link_one(anns, name, url)[k]).start
                == anns[k].start && spec_link_one(anns, name, url)[k].text == anns[k].text,
        forall|k: int|
            0 <= k < anns.len() && (#[trigger] anns[k]).value is Some ==> spec_link_one(
                anns,
                name,
                url,
            )[k].value == anns[k].value,
        forall|k: int|
            0 <= k < anns.len() && all_lowercase((#[trigger] anns[k]).text) ==> spec_link_one(
                anns,
                name,
                url,
            )[k].value == anns[k].value,
{
    lemma_first_match_bounds(anns, name, 0);
}

/// The whole walk keeps every token's range and text, touches no claimed
/// token, and claims nothing all-lowercase.
pub proof fn lemma_walk_preserves(
    anns: Seq<AnnModel>,
    syms: Seq<SymModel>,
    prefix: Seq<Seq<char>>,
    base: Seq<Seq<char>>,
    i: int,
)
    requires
        0 <= i <= syms.len(),
    ensures
        spec_autolink_syms(anns, syms, prefix, base, i).len() == anns.len(),
        forall|k: int|
            0 <= k < anns.len() ==> (#[trigger] spec_autolink_syms(
                anns,
                syms,
                prefix,
                base,
                i,
            )[k]).start == anns[k].start && spec_autolink_syms(anns, syms, prefix, base, i)[k].text
                == anns[k].text,
        forall|k: int|
            0 <= k < anns.len() && (#[trigger] anns[k]).value is Some ==> spec_autolink_syms(
                anns,
                syms,
                prefix,
                base,
                i,
            )[k].value == anns[k].value,
        forall|k: int|
            0 <= k < anns.len() && all_lowercase((#[trigger] anns[k]).text)
                ==> spec_autolink_syms(anns, syms, prefix, base, i)[k].value == anns[k].value,
    decreases syms, 0int, syms.len() - i,
{
    if i < syms.len() {
        vstd::seq::axiom_seq_index_decreases(syms, i);
        lemma_walk_sym_preserves(anns, syms[i], prefix, base);
        lemma_walk_preserves(spec_autolink_sym(anns, syms[i], prefix, base), syms, prefix, base, i + 1);
    }
}

/// One symbol's subtree pass keeps every token's range and text, touches no
/// claimed token, and claims nothing all-lowercase.
pub proof fn lemma_walk_sym_preserves(
    anns: Seq<AnnModel>,
    sym: SymModel,
    prefix: Seq<Seq<char>>,
    base: Seq<Seq<char>>,
)
    ensures
        spec_autolink_sym(anns, sym, prefix, base).len() == anns.len(),
        forall|k: int|
            0 <= k < anns.len() ==> (#[trigger] spec_autolink_sym(anns, sym, prefix, base)[k]).start
                == anns[k].start && spec_autolink_sym(anns, sym, prefix, base)[k].text
                == anns[k].text,
        forall|k: int|
            0 <= k < anns.len() && (#[trigger] anns[k]).value is Some ==> spec_autolink_sym(
                anns,
                sym,
                prefix,
                base,
            )[k].value == anns[k].value,
        forall|k: int|
            0 <= k < anns.len() && all_lowercase((#[trigger] anns[k]).text) ==> spec_autolink_sym(
                anns,
                sym,
                prefix,
                base,
            )[k].value == anns[k].value,
    decreases sym, 1int, 0int,
{
    let anns1 = match spec_abs_docs_url(sym.kind, quals_of(prefix, sym.name), sym.file, base) {
        Some(url) => spec_link_one(anns, sym.name, url_display(url)),
        None => anns,
    };
    match spec_abs_docs_url(sym.kind, quals_of(prefix, sym.name), sym.file, base) {
        Some(url) => {
            lemma_link_one_preserves(anns, sym.name, url_display(url));
        },
        None => {},
    }
    if sym.kind is Namespace {
        lemma_walk_preserves(anns1, sym.entries, quals_of(prefix, sym.name), base, 0);
    }
}

/// A token that consists entirely of lowercase characters is never linked:
/// after the whole walk it still has no replacement.
pub proof fn lemma_lowercase_never_linked(
    anns: Seq<AnnModel>,
    syms: Seq<SymModel>,
    prefix: Seq<Seq<char>>,
    base: Seq<Seq<char>>,
    k: int,
)
    requires
        0 <= k < anns.len(),
        all_lowercase(anns[k].text),
        anns[k].value is None,
    ensures
        spec_autolink_syms(anns, syms, prefix, base, 0)[k].value is None,
{
    lemma_walk_preserves(anns, syms, prefix, base, 0);
}

/// Every name documented anywhere in the forest of symbols.
pub open spec fn name_in_syms(syms: Seq<SymModel>, name: Seq<char>, i: int) -> bool
    decreases syms, 0int, syms.len() - i when 0 <= i <= syms.len() via name_in_syms_decreases
{
    if i >= syms.len() {
        false
    } else {
        name_in_sym(syms[i], name) || name_in_syms(syms, name, i + 1)
    }
}

/// Whether the symbol or any of its descendants bears the name.
pub open spec fn name_in_sym(sym: SymModel, name: Seq<char>) -> bool
    decreases sym, 1int, 0int,
{
    sym.name == name || (sym.kind is Namespace && name_in_syms(sym.entries, name, 0))
}

#[via_fn]
proof fn name_in_syms_decreases(syms: Seq<SymModel>, name: Seq<char>, i: int) {
    if 0 <= i < syms.len() {
        vstd::seq::axiom_seq_index_decreases(syms, i);
    }
}

/// Text without a known symbol name comes through the walk unclaimed: when
/// no token's text is the name of any symbol in the forest, no token gains
/// a replacement.
pub proof fn lemma_no_known_name_unchanged(
    anns: Seq<AnnModel>,
    syms: Seq<SymModel>,
    prefix: Seq<Seq<char>>,
    base: Seq<Seq<char>>,
    i: int,
)
    requires
        0 <= i <= syms.len(),
        forall|k: int, n: Seq<char>|
            #![trigger anns[k], name_in_syms(syms, n, 0)]
            0 <= k < anns.len() && name_in_syms(syms, n, 0) ==> anns[k].text != n,
    ensures
        spec_autolink_syms(anns, syms, prefix, base, i) == anns,
    decreases syms, 0int, syms.len() - i,
{
    if i < syms.len() {
        vstd::seq::axiom_seq_index_decreases(syms, i);
        assert forall|k: int, n: Seq<char>|
            #![trigger anns[k], name_in_sym(syms[i], n)]
            0 <= k < anns.len() && name_in_sym(syms[i], n) implies anns[k].text != n by {
            lemma_name_in_syms_up_to(syms, n, 0, i);
        }
        lemma_no_known_name_sym_unchanged(anns, syms[i], prefix, base);
        lemma_no_known_name_unchanged(anns, syms, prefix, base, i + 1);
    }
}

pub proof fn lemma_name_in_syms_up_to(syms: Seq<SymModel>, n: Seq<char>, j: int, i: int)
    requires
        0 <= j <= i < syms.len(),
        name_in_sym(syms[i], n),
    ensures
        name_in_syms(syms, n, j),
    decreases i - j,
{
    if j < i {
        lemma_name_in_syms_up_to(syms, n, j + 1, i);
    }
}

/// One subtree's pass changes nothing when no token bears any of its names.
pub proof fn lemma_no_known_name_sym_unchanged(
    anns: Seq<AnnModel>,
    sym: SymModel,
    prefix: Seq<Seq<char>>,
    base: Seq<Seq<char>>,
)
    requires
        forall|k: int, n: Seq<char>|
            #![trigger anns[k], name_in_sym(sym, n)]
            0 <= k < anns.len() && name_in_sym(sym, n) ==> anns[k].text != n,
    ensures
        spec_autolink_sym(anns, sym, prefix, base) == anns,
    decreases sym, 1int, 0int,
{
    assert(name_in_sym(sym, sym.name));
    assert(forall|k: int| 0 <= k < anns.len() ==> (#[trigger] anns[k]).text != sym.name);
    lemma_first_match_absent(anns, sym.name, 0);
    if sym.kind is Namespace {
        lemma_no_known_name_subtree(anns, sym, prefix, base);
    }
}

proof fn lemma_no_known_name_subtree(
    anns: Seq<AnnModel>,
    sym: SymModel,
    prefix: Seq<Seq<char>>,
    base: Seq<Seq<char>>,
)
    requires
        sym.kind is Namespace,
        forall|k: int, n: Seq<char>|
            #![trigger anns[k], name_in_sym(sym, n)]
            0 <= k < anns.len() && name_in_sym(sym, n) ==> anns[k].text != n,
    ensures
        spec_autolink_syms(anns, sym.entries, quals_of(prefix, sym.name), base, 0) == anns,
    decreases sym, 0int, 0int,
{
    assert(forall|k: int, n: Seq<char>|
        #![trigger anns[k], name_in_syms(sym.entries, n, 0)]
        0 <= k < anns.len() && name_in_syms(sym.entries, n, 0) ==> anns[k].text != n) by {
        assert forall|k: int, n: Seq<char>|
            #![trigger anns[k], name_in_syms(sym.entries, n, 0)]
            0 <= k < anns.len() && name_in_syms(sym.entries, n, 0) implies anns[k].text != n by {
            assert(name_in_sym(sym, n));
        }
    }
    lemma_no_known_name_unchanged(anns, sym.entries, quals_of(prefix, sym.name), base, 0);
}

/// Claims the first claimable token equal to the name, replacing it with a
/// markdown link to the URL; with no such token the tokens are unchanged.
fn link_symbol(anns: &mut Annotations, name: &str, url_text: &str)
    requires
        old(anns).wf(),
    ensures
        final(anns).wf(),
        final(anns).text() == old(anns).text(),
        final(anns).anns() == spec_link_one(old(anns).anns(), name@, url_text@),
{
    anns.rewind();
    let ghost orig = anns.anns();
    proof {
        lemma_first_match_bounds(orig, name@, 0);
    }
    loop
        invariant_except_break
            anns.wf(),
            anns.text() == old(anns).text(),
            anns.anns() == orig,
            0 <= anns.cursor() <= orig.len(),
            first_match(orig, name@, 0) == first_match(orig, name@, anns.cursor()),
        ensures
            anns.wf(),
            anns.text() == old(anns).text(),
            anns.anns() == spec_link_one(orig, name@, url_text@),
        decreases orig.len() - anns.cursor(),
    {
        let ghost cur = anns.cursor();
        let ghost idx = crate::annotations::next_unclaimed(orig, cur);
        proof {
            crate::annotations::lemma_next_unclaimed_bounds(orig, cur);
            lemma_first_match_skip_claimed(orig, name@, cur, idx);
        }
        match anns.next() {
            None => {
                proof {
                    assert(first_match(orig, name@, 0) == orig.len());
                    assert(anns.anns() =~= spec_link_one(orig, name@, url_text@));
                }
                break;
            },
            Some(word) => {
                let wchars = chars_vec(word.as_str());
                let lower = is_all_lowercase(wchars.as_slice());
                let same = crate::linker::str_eq_str(word.as_str(), name);
                if !lower && same {
                    proof {
                        assert(orig[idx].value is None);
                        assert(first_match(orig, name@, idx) == idx);
                        assert(first_match(orig, name@, 0) == idx);
                    }
                    let mut replacement = String::new();
                    push_char(&mut replacement, '[');
                    replacement.append(word.as_str());
                    push_char(&mut replacement, ']');
                    push_char(&mut replacement, '(');
                    replacement.append(url_text);
                    push_char(&mut replacement, ')');
                    proof {
                        assert(replacement@ =~= link_text(orig[idx].text, url_text@));
                    }
                    anns.annotate(replacement);
                    proof {
                        assert(anns.anns() =~= spec_link_one(orig, name@, url_text@));
                    }
                    break;
                } else {
                    proof {
                        assert(!(orig[idx].value is None && !all_lowercase(orig[idx].text)
                            && orig[idx].text == name@));
                        assert(first_match(orig, name@, idx) == first_match(orig, name@, idx + 1));
                    }
                }
            },
        }
    }
}

/// Walks the symbols from index `i` on, linking each one's first claimable
/// mention, then its children's.
fn autolink_symbols(
    anns: &mut Annotations,
    syms: &Vec<Symbol>,
    prefix: &Vec<String>,
    config: &Config,
)
    requires
        old(anns).wf(),
    ensures
        final(anns).wf(),
        final(anns).text() == old(anns).text(),
        final(anns).anns() == spec_autolink_syms(
            old(anns).anns(),
            sym_models(syms@),
            segs_view(prefix@),
            spec_base(config.output_url),
            0,
        ),
    decreases syms@, 0int,
{
    let ghost base = spec_base(config.output_url);
    let ghost models = sym_models(syms@);
    let mut i: usize = 0;
    proof {
        lemma_sym_models_index(syms@);
    }
    while i < syms.len()
        invariant
            anns.wf(),
            i <= syms@.len(),
            models == sym_models(syms@),
            models.len() == syms@.len(),
            base == spec_base(config.output_url),
            anns.text() == old(anns).text(),
            spec_autolink_syms(old(anns).anns(), models, segs_view(prefix@), base, 0)
                == spec_autolink_syms(anns.anns(), models, segs_view(prefix@), base, i as int),
        decreases syms@.len() - i,
    {
        proof {
            lemma_sym_models_index(syms@);
            assert(models[i as int] == syms@[i as int]@);
            vstd::seq::axiom_seq_index_decreases(syms@, i as int);
        }
        autolink_symbol(anns, &syms[i], prefix, config);
        i += 1;
    }
}

/// Links one symbol's first claimable mention, then, for a namespace, its
/// children's, depth first.
fn autolink_symbol(anns: &mut Annotations, sym: &Symbol, prefix: &Vec<String>, config: &Config)
    requires
        old(anns).wf(),
    ensures
        final(anns).wf(),
        final(anns).text() == old(anns).text(),
        final(anns).anns() == spec_autolink_sym(
            old(anns).anns(),
            sym@,
            segs_view(prefix@),
            spec_base(config.output_url),
        ),
    decreases *sym, 1int,
{
    let mut quals: Vec<String> = Vec::new();
    let mut i: usize = 0;
    while i < prefix.len()
        invariant
            i <= prefix@.len(),
            quals@.len() == i,
            segs_view(quals@) == segs_view(prefix@).take(i as int),
        decreases prefix@.len() - i,
    {
        quals.push(prefix[i].clone());
        i += 1;
        proof {
            assert(segs_view(quals@) =~~= segs_view(prefix@).take(i as int));
        }
    }
    proof {
        assert(segs_view(prefix@).take(prefix@.len() as int) =~= segs_view(prefix@));
    }
    let ghost qprev = quals@;
    quals.push(sym.name.clone());
    proof {
        assert(segs_view(quals@) =~~= segs_view(qprev).push(sym.name@));
        assert(segs_view(quals@) =~~= quals_of(segs_view(prefix@), sym@.name));
    }
    match abs_docs_url(sym.kind, &quals, &sym.file, config) {
        Some(url) => {
            let url_text = url.to_encoded_string();
            proof {
                assert(url_text@ =~= url_display(url@));
            }
            link_symbol(anns, sym.name.as_str(), url_text.as_str());
        },
        None => {},
    }
    if matches!(sym.kind, crate::symbol::SymbolKind::Namespace) {
        proof {
            assert(decreases_to!(*sym => sym.entries));
            assert(decreases_to!(sym.entries => sym.entries@));
            assert(sym@.kind is Namespace);
        }
        autolink_symbols_inner(anns, &sym.entries, &quals, config);
        proof {
            assert(sym@.entries == sym_models(sym.entries@));
        }
    } else {
        proof {
            assert(!(sym@.kind is Namespace));
        }
    }
}

/// Walks a namespace's children; the recursion mirrors
/// [`autolink_symbols`], split so termination follows the symbol tree.
fn autolink_symbols_inner(
    anns: &mut Annotations,
    syms: &Vec<Symbol>,
    prefix: &Vec<String>,
    config: &Config,
)
    requires
        old(anns).wf(),
    ensures
        final(anns).wf(),
        final(anns).text() == old(anns).text(),
        final(anns).anns() == spec_autolink_syms(
            old(anns).anns(),
            sym_models(syms@),
            segs_view(prefix@),
            spec_base(config.output_url),
            0,
        ),
    decreases syms@, 0int,
{
    let ghost base = spec_base(config.output_url);
    let ghost models = sym_models(syms@);
    let mut i: usize = 0;
    proof {
        lemma_sym_models_index(syms@);
    }
    while i < syms.len()
        invariant
            anns.wf(),
            i <= syms@.len(),
            models == sym_models(syms@),
            models.len() == syms@.len(),
            base == spec_base(config.output_url),
            anns.text() == old(anns).text(),
            spec_autolink_syms(old(anns).anns(), models, segs_view(prefix@), base, 0)
                == spec_autolink_syms(anns.anns(), models, segs_view(prefix@), base, i as int),
        decreases syms@.len() - i,
    {
        proof {
            lemma_sym_models_index(syms@);
            assert(models[i as int] == syms@[i as int]@);
            vstd::seq::axiom_seq_index_decreases(syms@, i as int);
        }
        autolink_symbol(anns, &syms[i], prefix, config);
        i += 1;
    }
}

/// Rewrites bare mentions of symbol names in the text into markdown links,
/// walking the graph root's entries depth first. The rewritten text is
/// exactly the original with each claimed token replaced by its link, in
/// left-to-right order.
pub fn fmt_autolinks(root: &Symbol, text: &str, config: &Config) -> (r: String)
    ensures
        r@ == apply_from(
            text@,
            spec_autolink_syms(
                tokens(text@),
                sym_models(root.entries@),
                Seq::empty(),
                spec_base(config.output_url),
                0,
            ),
            0,
        ),
{
    let mut anns = Annotations::new(text);
    let empty_prefix: Vec<String> = Vec::new();
    proof {
        assert(segs_view(empty_prefix@) =~= Seq::<Seq<char>>::empty());
    }
    autolink_symbols(&mut anns, &root.entries, &empty_prefix, config);
    anns.into_result()
}

/// Autolinking text that mentions no known symbol name returns it
/// unchanged: when no token's text is the name of any symbol in the graph,
/// the rewritten text is the original.
pub proof fn lemma_autolink_unknown_text_unchanged(
    text: Seq<char>,
    syms: Seq<SymModel>,
    base: Seq<Seq<char>>,
)
    requires
        forall|k: int, n: Seq<char>|
            #![trigger tokens(text)[k], name_in_syms(syms, n, 0)]
            0 <= k < tokens(text).len() && name_in_syms(syms, n, 0) ==> tokens(text)[k].text != n,
    ensures
        apply_from(text, spec_autolink_syms(tokens(text), syms, Seq::empty(), base, 0), 0)
            == text,
{
    lemma_no_known_name_unchanged(tokens(text), syms, Seq::empty(), base, 0);
    crate::annotations::lemma_tokens_unclaimed(text);
    lemma_apply_unclaimed(text, tokens(text), 0);
    assert(text.subrange(0, text.len() as int) =~= text);
}

} // verus!
