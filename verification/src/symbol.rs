//! The canonical symbol graph: a rooted tree of documented symbols built
//! once from an externally supplied AST entity tree.
//!
//! Entities in system headers or without a name are skipped. A namespace
//! merges into an already-present namespace of the same name: its children
//! are unioned into the existing node. A class or struct is taken only when
//! it is a full definition, and the first definition encountered wins; later
//! duplicates are dropped. A function re-declaration replaces the earlier
//! entry.

use vstd::prelude::*;

verus! {

broadcast use vstd::std_specs::vec::axiom_vec_decreases_to_view, vstd::seq::axiom_seq_index_decreases;


/// The kind of an AST entity, as the external parser reports it.
#[derive(PartialEq, Eq, Structural, Clone, Copy, Debug)]
pub enum AstKind {
    Namespace,
    StructDecl,
    ClassDecl,
    ClassTemplate,
    FunctionDecl,
    Other,
}

/// One node of the externally supplied AST: kind, optional name, optional
/// defining file, optional raw comment, and children.
pub struct AstEntity {
    pub kind: AstKind,
    pub name: Option<String>,
    pub file: Option<String>,
    pub comment: Option<String>,
    pub in_system_header: bool,
    pub is_definition: bool,
    pub children: Vec<AstEntity>,
}

/// The mathematical model of an AST entity.
#[verifier::ext_equal]
pub struct AstModel {
    pub kind: AstKind,
    pub name: Option<Seq<char>>,
    pub file: Option<Seq<char>>,
    pub comment: Option<Seq<char>>,
    pub in_system_header: bool,
    pub is_definition: bool,
    pub children: Seq<AstModel>,
}

/// The model of an AST entity.
pub open spec fn ast_model(e: AstEntity) -> AstModel
    decreases e via ast_model_decreases
{
    AstModel {
        kind: e.kind,
        name: match e.name {
            Some(n) => Some(n@),
            None => None,
        },
        file: match e.file {
            Some(f) => Some(f@),
            None => None,
        },
        comment: match e.comment {
            Some(c) => Some(c@),
            None => None,
        },
        in_system_header: e.in_system_header,
        is_definition: e.is_definition,
        children: ast_models(e.children@),
    }
}

#[via_fn]
proof fn ast_model_decreases(e: AstEntity) {
    assert(decreases_to!(e => e.children));
    assert(decreases_to!(e.children => e.children@));
}

/// The models of a sequence of AST entities.
pub open spec fn ast_models(cs: Seq<AstEntity>) -> Seq<AstModel>
    decreases cs, cs.len(),
{
    if cs.len() == 0 {
        Seq::empty()
    } else {
        seq![ast_model(cs[0])] + ast_models(cs.drop_first())
    }
}

/// The models of a sequence of AST entities, element by element.
pub broadcast proof fn lemma_ast_models_index(cs: Seq<AstEntity>)
    ensures
        #![trigger ast_models(cs)]
        ast_models(cs).len() == cs.len() && (forall|i: int|
            0 <= i < cs.len() ==> ast_models(cs)[i] == ast_model(cs[i])),
    decreases cs.len(),
{
    if cs.len() > 0 {
        lemma_ast_models_index(cs.drop_first());
    }
}

impl View for AstEntity {
    type V = AstModel;

    open spec fn view(&self) -> AstModel {
        ast_model(*self)
    }
}

/// The kind of a documented symbol.
#[derive(PartialEq, Eq, Structural, Clone, Copy, Debug)]
pub enum SymbolKind {
    Namespace,
    Class,
    Struct,
    Function,
}

/// One documented symbol: its kind, simple name, optional defining file and
/// raw comment, and, for a namespace, its children.
pub struct Symbol {
    pub kind: SymbolKind,
    pub name: String,
    pub file: Option<String>,
    pub comment: Option<String>,
    pub entries: Vec<Symbol>,
}

/// The mathematical model of a symbol.
#[verifier::ext_equal]
pub struct SymModel {
    pub kind: SymbolKind,
    pub name: Seq<char>,
    pub file: Option<Seq<char>>,
    pub comment: Option<Seq<char>>,
    pub entries: Seq<SymModel>,
}

/// The model of a symbol.
pub open spec fn sym_model(s: Symbol) -> SymModel
    decreases s via sym_model_decreases
{
    SymModel {
        kind: s.kind,
        name: s.name@,
        file: match s.file {
            Some(f) => Some(f@),
            None => None,
        },
        comment: match s.comment {
            Some(c) => Some(c@),
            None => None,
        },
        entries: sym_models(s.entries@),
    }
}

#[via_fn]
proof fn sym_model_decreases(s: Symbol) {
    assert(decreases_to!(s => s.entries));
    assert(decreases_to!(s.entries => s.entries@));
}

/// The models of a sequence of symbols.
pub open spec fn sym_models(ss: Seq<Symbol>) -> Seq<SymModel>
    decreases ss, ss.len(),
{
    if ss.len() == 0 {
        Seq::empty()
    } else {
        seq![sym_model(ss[0])] + sym_models(ss.drop_first())
    }
}

/// The models of a sequence of symbols, element by element.
pub broadcast proof fn lemma_sym_models_index(ss: Seq<Symbol>)
    ensures
        #![trigger sym_models(ss)]
        sym_models(ss).len() == ss.len() && (forall|i: int|
            0 <= i < ss.len() ==> sym_models(ss)[i] == sym_model(ss[i])),
    decreases ss.len(),
{
    if ss.len() > 0 {
        lemma_sym_models_index(ss.drop_first());
    }
}

impl View for Symbol {
    type V = SymModel;

    open spec fn view(&self) -> SymModel {
        sym_model(*self)
    }
}

/// The first index at or after `i` of an entry with the given name, or the
/// length when there is none.
pub open spec fn find_from(es: Seq<SymModel>, name: Seq<char>, i: int) -> int
    decreases es.len() - i when 0 <= i <= es.len()
{
    if i >= es.len() {
        es.len() as int
    } else if es[i].name == name {
        i
    } else {
        find_from(es, name, i + 1)
    }
}

pub proof fn lemma_find_from_bounds(es: Seq<SymModel>, name: Seq<char>, i: int)
    requires
        0 <= i <= es.len(),
    ensures
        i <= find_from(es, name, i) <= es.len(),
        find_from(es, name, i) < es.len() ==> es[find_from(es, name, i)].name == name,
        forall|j: int| i <= j < find_from(es, name, i) ==> es[j].name != name,
    decreases es.len() - i,
{
    if i < es.len() && es[i].name != name {
        lemma_find_from_bounds(es, name, i + 1);
    }
}

/// Replaces the first entry of the same name, or appends: the semantics of
/// adding one child to a namespace whose children are being unioned.
pub open spec fn spec_insert_replace(es: Seq<SymModel>, sym: SymModel) -> Seq<SymModel> {
    let i = find_from(es, sym.name, 0);
    if i < es.len() {
        es.update(i, sym)
    } else {
        es.push(sym)
    }
}

/// Unions the children of a re-declared namespace into the existing node:
/// each new child replaces a same-named old child or is appended.
pub open spec fn spec_extend(es: Seq<SymModel>, add: Seq<SymModel>) -> Seq<SymModel>
    decreases add.len(),
{
    if add.len() == 0 {
        es
    } else {
        spec_extend(spec_insert_replace(es, add.first()), add.drop_first())
    }
}

/// Adds one built symbol to a namespace's entries:
/// - a namespace merges into an existing namespace of the same name;
///   with the name taken by a non-namespace, it is dropped;
/// - a class or struct is dropped when the name is already taken (the first
///   definition wins);
/// - a function replaces an earlier entry of the same name;
/// - otherwise the symbol is appended.
pub open spec fn spec_insert(es: Seq<SymModel>, sym: SymModel) -> Seq<SymModel> {
    let i = find_from(es, sym.name, 0);
    if i < es.len() {
        match sym.kind {
            SymbolKind::Namespace => {
                if es[i].kind is Namespace {
                    es.update(
                        i,
                        SymModel {
                            kind: es[i].kind,
                            name: es[i].name,
                            file: es[i].file,
                            comment: es[i].comment,
                            entries: spec_extend(es[i].entries, sym.entries),
                        },
                    )
                } else {
                    es
                }
            },
            SymbolKind::Class => es,
            SymbolKind::Struct => es,
            SymbolKind::Function => es.update(i, sym),
        }
    } else {
        es.push(sym)
    }
}

/// Whether an AST entity contributes a symbol: not in a system header, named,
/// of a documented kind, and (for a class or struct) a full definition.
pub open spec fn spec_included(c: AstModel) -> bool {
    !c.in_system_header && c.name is Some && match c.kind {
        AstKind::Namespace => true,
        AstKind::StructDecl => c.is_definition,
        AstKind::ClassDecl => c.is_definition,
        AstKind::ClassTemplate => c.is_definition,
        AstKind::FunctionDecl => true,
        AstKind::Other => false,
    }
}

/// The symbol kind an included AST entity maps to.
pub open spec fn spec_kind_of(k: AstKind) -> SymbolKind {
    match k {
        AstKind::Namespace => SymbolKind::Namespace,
        AstKind::StructDecl => SymbolKind::Struct,
        AstKind::ClassDecl => SymbolKind::Class,
        AstKind::ClassTemplate => SymbolKind::Class,
        AstKind::FunctionDecl => SymbolKind::Function,
        AstKind::Other => SymbolKind::Function,
    }
}

/// The symbol built from one included AST entity: only a namespace keeps
/// children, built recursively from its own children.
pub open spec fn spec_build_sym(c: AstModel) -> SymModel
    decreases c, 1int, 0int,
{
    SymModel {
        kind: spec_kind_of(c.kind),
        name: c.name->0,
        file: c.file,
        comment: c.comment,
        entries: if c.kind is Namespace {
            spec_build_children(c, 0, Seq::empty())
        } else {
            Seq::empty()
        },
    }
}

/// The entries of a namespace after its children from index `i` on have
/// been added to `acc`, in order.
pub open spec fn spec_build_children(c: AstModel, i: int, acc: Seq<SymModel>) -> Seq<SymModel>
    decreases c, 0int, c.children.len() - i when 0 <= i <= c.children.len()
{
    if i >= c.children.len() {
        acc
    } else {
        let child = c.children[i];
        let acc2 = if spec_included(child) {
            spec_insert(acc, spec_build_sym(child))
        } else {
            acc
        };
        spec_build_children(c, i + 1, acc2)
    }
}

/// The first index at or after `from` of an entry with the given name.
fn find_name(entries: &Vec<Symbol>, name: &String) -> (r: usize)
    ensures
        r == find_from(sym_models(entries@), name@, 0),
{
    broadcast use lemma_sym_models_index, lemma_ast_models_index;
    let mut j: usize = 0;
    while j < entries.len()
        invariant
            j <= entries@.len(),
            find_from(sym_models(entries@), name@, 0) == find_from(
                sym_models(entries@),
                name@,
                j as int,
            ),
        decreases entries@.len() - j,
    {
        if crate::url_path::string_eq(&entries[j].name, name) {
            proof {
                lemma_sym_models_index(entries@);
                assert(sym_models(entries@)[j as int] == sym_model(entries@[j as int]));
                assert(sym_models(entries@)[j as int].name == name@);
            }
            return j;
        }
        proof {
            lemma_sym_models_index(entries@);
            assert(sym_models(entries@)[j as int] == sym_model(entries@[j as int]));
            assert(sym_models(entries@)[j as int].name != name@);
        }
        j += 1;
    }
    j
}

/// Replaces the first same-named entry, or appends.
fn insert_replace(entries: Vec<Symbol>, sym: Symbol) -> (r: Vec<Symbol>)
    ensures
        sym_models(r@) == spec_insert_replace(sym_models(entries@), sym@),
{
    broadcast use lemma_sym_models_index, lemma_ast_models_index;
    let mut entries = entries;
    let ghost olde = sym_models(entries@);
    let i = find_name(&entries, &sym.name);
    proof {
        lemma_find_from_bounds(olde, sym@.name, 0);
    }
    if i < entries.len() {
        entries[i] = sym;
        proof {
            assert(sym_models(entries@) =~~= spec_insert_replace(olde, sym@));
        }
    } else {
        entries.push(sym);
        proof {
            assert(sym_models(entries@) =~~= spec_insert_replace(olde, sym@));
        }
    }
    entries
}

/// Unions new children into a namespace's entries, new over old.
fn extend_entries(entries: Vec<Symbol>, add: Vec<Symbol>) -> (r: Vec<Symbol>)
    ensures
        sym_models(r@) == spec_extend(sym_models(entries@), sym_models(add@)),
    decreases add@.len(),
{
    broadcast use lemma_sym_models_index, lemma_ast_models_index;
    let mut add = add;
    let ghost adds = sym_models(add@);
    if add.len() == 0 {
        proof {
            assert(adds.len() == 0);
        }
        entries
    } else {
        let first = add.remove(0);
        proof {
            assert(sym_models(add@) =~~= adds.drop_first());
            assert(first@ == adds.first());
        }
        let merged = insert_replace(entries, first);
        extend_entries(merged, add)
    }
}

/// Adds one built symbol to a namespace's entries, with the merge,
/// first-definition and replacement rules above.
fn insert_symbol(entries: Vec<Symbol>, sym: Symbol) -> (r: Vec<Symbol>)
    ensures
        sym_models(r@) == spec_insert(sym_models(entries@), sym@),
{
    broadcast use lemma_sym_models_index, lemma_ast_models_index;
    let mut entries = entries;
    let ghost olde = sym_models(entries@);
    let i = find_name(&entries, &sym.name);
    proof {
        lemma_find_from_bounds(olde, sym@.name, 0);
    }
    if i < entries.len() {
        match sym.kind {
            SymbolKind::Namespace => {
                let existing_is_ns = matches!(entries[i].kind, SymbolKind::Namespace);
                if existing_is_ns {
                    let old_entry = entries.remove(i);
                    proof {
                        assert(old_entry@ == olde[i as int]);
                    }
                    let Symbol { kind, name, file, comment, entries: old_children } = old_entry;
                    let merged_children = extend_entries(old_children, sym.entries);
                    let merged = Symbol { kind, name, file, comment, entries: merged_children };
                    proof {
                        assert(merged@ =~~= SymModel {
                            kind: olde[i as int].kind,
                            name: olde[i as int].name,
                            file: olde[i as int].file,
                            comment: olde[i as int].comment,
                            entries: spec_extend(
                                olde[i as int].entries,
                                sym@.entries,
                            ),
                        });
                    }
                    entries.insert(i, merged);
                    proof {
                        assert(sym_models(entries@) =~~= spec_insert(olde, sym@));
                    }
                    entries
                } else {
                    proof {
                        assert(sym_models(entries@) =~~= spec_insert(olde, sym@));
                    }
                    entries
                }
            },
            SymbolKind::Class => {
                proof {
                    assert(sym_models(entries@) =~~= spec_insert(olde, sym@));
                }
                entries
            },
            SymbolKind::Struct => {
                proof {
                    assert(sym_models(entries@) =~~= spec_insert(olde, sym@));
                }
                entries
            },
            SymbolKind::Function => {
                entries[i] = sym;
                proof {
                    assert(sym_models(entries@) =~~= spec_insert(olde, sym@));
                }
                entries
            },
        }
    } else {
        entries.push(sym);
        proof {
            assert(sym_models(entries@) =~~= spec_insert(olde, sym@));
        }
        entries
    }
}

/// Builds the symbol made from one included AST entity.
fn build_sym(c: &AstEntity) -> (r: Symbol)
    requires
        spec_included(c@),
    ensures
        r@ == spec_build_sym(c@),
    decreases *c,
{
    broadcast use lemma_sym_models_index, lemma_ast_models_index;
    let kind = match c.kind {
        AstKind::Namespace => SymbolKind::Namespace,
        AstKind::StructDecl => SymbolKind::Struct,
        AstKind::ClassDecl => SymbolKind::Class,
        AstKind::ClassTemplate => SymbolKind::Class,
        AstKind::FunctionDecl => SymbolKind::Function,
        AstKind::Other => SymbolKind::Function,
    };
    let name = match &c.name {
        Some(n) => n.clone(),
        None => String::new(),
    };
    let file = match &c.file {
        Some(f) => Some(f.clone()),
        None => None,
    };
    let comment = match &c.comment {
        Some(cm) => Some(cm.clone()),
        None => None,
    };
    let entries = if matches!(c.kind, AstKind::Namespace) {
        build_children(c)
    } else {
        Vec::new()
    };
    let r = Symbol { kind, name, file, comment, entries };
    proof {
        assert(r@ =~~= spec_build_sym(c@));
    }
    r
}

/// Builds a namespace's entries from its AST children, in order.
fn build_children(c: &AstEntity) -> (r: Vec<Symbol>)
    ensures
        sym_models(r@) == spec_build_children(c@, 0, Seq::empty()),
    decreases *c, 0int,
{
    broadcast use lemma_sym_models_index, lemma_ast_models_index;
    let mut acc: Vec<Symbol> = Vec::new();
    let mut i: usize = 0;
    proof {
        lemma_ast_models_index(c.children@);
        assert(sym_models(acc@) =~~= Seq::<SymModel>::empty());
    }
    while i < c.children.len()
        invariant
            i <= c.children@.len(),
            c@.children.len() == c.children@.len(),
            spec_build_children(c@, 0, Seq::empty()) == spec_build_children(
                c@,
                i as int,
                sym_models(acc@),
            ),
        decreases c.children@.len() - i,
    {
        let child = &c.children[i];
        proof {
            lemma_ast_models_index(c.children@);
            assert(c@.children[i as int] == c.children@[i as int]@);
            assert(decreases_to!(*c => c.children));
            assert(decreases_to!(c.children => c.children@));
            vstd::seq::axiom_seq_index_decreases(c.children@, i as int);
            assert(decreases_to!(*c => c.children@[i as int]));
        }
        let included = !child.in_system_header && child.name.is_some() && match child.kind {
            AstKind::Namespace => true,
            AstKind::StructDecl => child.is_definition,
            AstKind::ClassDecl => child.is_definition,
            AstKind::ClassTemplate => child.is_definition,
            AstKind::FunctionDecl => true,
            AstKind::Other => false,
        };
        if included {
            proof {
                assert(spec_included(c@.children[i as int]));
            }
            let sym = build_sym(child);
            acc = insert_symbol(acc, sym);
        } else {
            proof {
                assert(!spec_included(c@.children[i as int]));
            }
        }
        i += 1;
    }
    acc
}

/// Builds the symbol graph root from the translation unit's entity: a
/// namespace holding the canonical tree of every documented symbol.
pub fn build_graph(root: &AstEntity) -> (r: Symbol)
    ensures
        r@.kind is Namespace,
        r@.name == match root@.name {
            Some(n) => n,
            None => Seq::<char>::empty(),
        },
        r@.entries == spec_build_children(root@, 0, Seq::empty()),
{
    broadcast use lemma_sym_models_index, lemma_ast_models_index;
    let name = match &root.name {
        Some(n) => n.clone(),
        None => String::new(),
    };
    let entries = build_children(root);
    Symbol { kind: SymbolKind::Namespace, name, file: None, comment: None, entries }
}

/// No name occurs in both entry lists.
pub open spec fn disjoint_names(a: Seq<SymModel>, b: Seq<SymModel>) -> bool {
    forall|i: int, j: int|
        0 <= i < a.len() && 0 <= j < b.len() ==> (#[trigger] a[i]).name != (#[trigger] b[j]).name
}

/// No two entries share a name.
pub open spec fn unique_names(a: Seq<SymModel>) -> bool {
    forall|i: int, j: int|
        0 <= i < j < a.len() ==> (#[trigger] a[i]).name != (#[trigger] a[j]).name
}

/// Unioning the children of two same-named namespaces concatenates them when
/// no names collide: every child of both survives, in order.
pub proof fn lemma_extend_disjoint_is_concat(a: Seq<SymModel>, b: Seq<SymModel>)
    requires
        disjoint_names(a, b),
        unique_names(b),
    ensures
        spec_extend(a, b) == a + b,
    decreases b.len(),
{
    if b.len() == 0 {
        assert(spec_extend(a, b) =~= a + b);
    } else {
        let first = b.first();
        lemma_find_from_bounds(a, first.name, 0);
        assert(find_from(a, first.name, 0) == a.len());
        assert(spec_insert_replace(a, first) == a.push(first));
        assert(forall|i: int, j: int|
            0 <= i < a.push(first).len() && 0 <= j < b.drop_first().len() ==> (#[trigger] a.push(
                first,
            )[i]).name != (#[trigger] b.drop_first()[j]).name);
        assert(forall|i: int, j: int|
            0 <= i < j < b.drop_first().len() ==> (#[trigger] b.drop_first()[i]).name
                != (#[trigger] b.drop_first()[j]).name);
        lemma_extend_disjoint_is_concat(a.push(first), b.drop_first());
        assert(a.push(first) + b.drop_first() =~= a + b);
    }
}

/// Re-declaring a namespace whose children's names do not collide with the
/// existing node's children merges the two into one node whose children are
/// the union of both, in order; no sibling duplicate is created and no other
/// entry changes.
pub proof fn lemma_namespace_merge_union(es: Seq<SymModel>, sym: SymModel, i: int)
    requires
        sym.kind is Namespace,
        0 <= i < es.len(),
        find_from(es, sym.name, 0) == i,
        es[i].kind is Namespace,
        disjoint_names(es[i].entries, sym.entries),
        unique_names(sym.entries),
    ensures
        spec_insert(es, sym).len() == es.len(),
        spec_insert(es, sym)[i].entries == es[i].entries + sym.entries,
        forall|j: int| 0 <= j < es.len() && j != i ==> spec_insert(es, sym)[j] == es[j],
{
    lemma_extend_disjoint_is_concat(es[i].entries, sym.entries);
}


/// A query over the graph: everything, one kind, or one kind defined in
/// one file.
pub enum SymbolFilter {
    All,
    OfKind(SymbolKind),
    OfKindInFile(SymbolKind, String),
}

/// Whether a symbol satisfies the query.
pub open spec fn spec_matches(m: SymModel, f: SymbolFilter) -> bool {
    match f {
        SymbolFilter::All => true,
        SymbolFilter::OfKind(k) => m.kind == k,
        SymbolFilter::OfKindInFile(k, file) => m.kind == k && m.file == Some(file@),
    }
}

/// The matching symbols of a subtree, depth first: the node itself when it
/// matches, then its children's matches, in order.
pub open spec fn spec_select(m: SymModel, f: SymbolFilter) -> Seq<SymModel>
    decreases m, 1int, 0int,
{
    (if spec_matches(m, f) {
        seq![m]
    } else {
        Seq::empty()
    }) + spec_select_seq(m.entries, f, 0)
}

/// The matching symbols of the subtrees from index `i` on.
pub open spec fn spec_select_seq(ms: Seq<SymModel>, f: SymbolFilter, i: int) -> Seq<SymModel>
    decreases ms, 0int, ms.len() - i when 0 <= i <= ms.len() via spec_select_seq_decreases
{
    if i >= ms.len() {
        Seq::empty()
    } else {
        spec_select(ms[i], f) + spec_select_seq(ms, f, i + 1)
    }
}

#[via_fn]
proof fn spec_select_seq_decreases(ms: Seq<SymModel>, f: SymbolFilter, i: int) {
    if 0 <= i < ms.len() {
        vstd::seq::axiom_seq_index_decreases(ms, i);
    }
}

/// The models of a list of symbol references.
pub open spec fn ref_models(rs: Seq<&Symbol>) -> Seq<SymModel> {
    Seq::new(rs.len(), |i: int| sym_model(*rs[i]))
}

/// Whether a symbol satisfies the query.
fn matches_filter(sym: &Symbol, f: &SymbolFilter) -> (r: bool)
    ensures
        r == spec_matches(sym@, *f),
{
    match f {
        SymbolFilter::All => true,
        SymbolFilter::OfKind(k) => matches_kind(sym.kind, *k),
        SymbolFilter::OfKindInFile(k, file) => {
            if !matches_kind(sym.kind, *k) {
                return false;
            }
            match &sym.file {
                Some(sf) => crate::url_path::string_eq(sf, file),
                None => false,
            }
        },
    }
}

/// Whether two kinds are the same.
fn matches_kind(a: SymbolKind, b: SymbolKind) -> (r: bool)
    ensures
        r == (a == b),
{
    match (a, b) {
        (SymbolKind::Namespace, SymbolKind::Namespace) => true,
        (SymbolKind::Class, SymbolKind::Class) => true,
        (SymbolKind::Struct, SymbolKind::Struct) => true,
        (SymbolKind::Function, SymbolKind::Function) => true,
        _ => false,
    }
}

impl Symbol {
    /// The graph's single query primitive: the flattened, filtered view of
    /// this subtree, depth first, as [`spec_select`] describes. Missing
    /// names and comments never fail a query; they were settled at
    /// construction.
    pub fn select<'a>(&'a self, filter: &SymbolFilter) -> (r: Vec<&'a Symbol>)
        ensures
            ref_models(r@) == spec_select(self@, *filter),
        decreases *self, 1int,
    {
        broadcast use vstd::std_specs::vec::axiom_vec_decreases_to_view, vstd::seq::axiom_seq_index_decreases;

        let mut out: Vec<&Symbol> = Vec::new();
        if matches_filter(self, filter) {
            out.push(self);
        }
        proof {
            if spec_matches(self@, *filter) {
                assert(ref_models(out@) =~~= seq![self@]);
            } else {
                assert(ref_models(out@) =~~= Seq::<SymModel>::empty());
            }
            assert(decreases_to!(*self => self.entries));
            assert(decreases_to!(self.entries => self.entries@));
        }
        let ghost head = ref_models(out@);
        let mut rest = select_in(&self.entries, filter);
        let ghost tail = ref_models(rest@);
        let ghost pre = out@;
        while rest.len() > 0
            invariant
                ref_models(out@) + ref_models(rest@) == head + tail,
            decreases rest@.len(),
        {
            let ghost outp = ref_models(out@);
            let ghost restp = ref_models(rest@);
            let x = rest.remove(0);
            out.push(x);
            proof {
                assert(ref_models(out@) =~~= outp.push(sym_model(*x)));
                assert(ref_models(rest@) =~~= restp.drop_first());
                assert(outp.push(sym_model(*x)) + restp.drop_first() =~~= outp + restp);
            }
        }
        proof {
            assert(ref_models(rest@) =~~= Seq::<SymModel>::empty());
            assert(ref_models(out@) =~~= head + tail);
            assert(self@.entries == sym_models(self.entries@));
            assert(ref_models(out@) =~~= spec_select(self@, *filter));
        }
        out
    }
}

/// The matching symbols of a list of subtrees, in order.
fn select_in<'a>(syms: &'a Vec<Symbol>, filter: &SymbolFilter) -> (r: Vec<&'a Symbol>)
    ensures
        ref_models(r@) == spec_select_seq(sym_models(syms@), *filter, 0),
    decreases syms@, 0int,
{
    broadcast use vstd::std_specs::vec::axiom_vec_decreases_to_view, vstd::seq::axiom_seq_index_decreases;

    let ghost models = sym_models(syms@);
    let mut out: Vec<&Symbol> = Vec::new();
    let mut i: usize = 0;
    proof {
        lemma_sym_models_index(syms@);
    }
    while i < syms.len()
        invariant
            i <= syms@.len(),
            models == sym_models(syms@),
            models.len() == syms@.len(),
            ref_models(out@) + spec_select_seq(models, *filter, i as int) == spec_select_seq(
                models,
                *filter,
                0,
            ),
        decreases syms@.len() - i,
    {
        proof {
            lemma_sym_models_index(syms@);
            vstd::seq::axiom_seq_index_decreases(syms@, i as int);
        }
        let mut found = syms[i].select(filter);
        let ghost outp = ref_models(out@);
        let ghost foundp = ref_models(found@);
        while found.len() > 0
            invariant
                ref_models(out@) + ref_models(found@) == outp + foundp,
            decreases found@.len(),
        {
            let ghost op = ref_models(out@);
            let ghost fp = ref_models(found@);
            let x = found.remove(0);
            out.push(x);
            proof {
                assert(ref_models(out@) =~~= op.push(sym_model(*x)));
                assert(ref_models(found@) =~~= fp.drop_first());
                assert(op.push(sym_model(*x)) + fp.drop_first() =~~= op + fp);
            }
        }
        i += 1;
        proof {
            assert(ref_models(found@) =~~= Seq::<SymModel>::empty());
            assert(ref_models(out@) =~~= outp + foundp);
            assert(ref_models(out@) + spec_select_seq(models, *filter, i as int)
                =~~= spec_select_seq(models, *filter, 0));
        }
    }
    proof {
        assert(ref_models(out@) =~~= spec_select_seq(models, *filter, 0));
    }
    out
}

} // verus!
