//! A small HTML tree: elements with classes, attributes and children, plain
//! text, lists of siblings, and raw markup. Rendering is deterministic:
//! attributes keep insertion order, text is entity-escaped, attribute values
//! are escaped with their default character escapes.

use vstd::prelude::*;

use crate::strings::push_char;
use crate::strings::string_from_chars;

verus! {

broadcast use vstd::std_specs::vec::axiom_vec_decreases_to_view, vstd::seq::axiom_seq_index_decreases;

/// A piece of HTML.
pub enum Html {
    /// An element with a tag, classes, attributes, and children.
    Element(HtmlElement),
    /// Text inside an element, escaped when rendered.
    Text(HtmlText),
    /// A list of sibling pieces with no enclosing element.
    List(HtmlList),
    /// Raw markup, rendered as it is.
    Raw(String),
}

/// An HTML element.
pub struct HtmlElement {
    pub tag: String,
    pub classes: Vec<String>,
    pub attributes: Vec<(String, String)>,
    pub children: Vec<Html>,
}

/// Text inside an element.
pub struct HtmlText {
    pub content: String,
}

/// A list of sibling pieces.
pub struct HtmlList {
    pub list: Vec<Html>,
}

/// The views of a vector of strings.
pub open spec fn strs(v: Seq<String>) -> Seq<Seq<char>> {
    Seq::new(v.len(), |i: int| v[i]@)
}

/// The views of a vector of attribute pairs.
pub open spec fn attrs_pairs(v: Seq<(String, String)>) -> Seq<(Seq<char>, Seq<char>)> {
    Seq::new(v.len(), |i: int| (v[i].0@, v[i].1@))
}

/// The mathematical model of a piece of HTML.
#[verifier::ext_equal]
pub enum HtmlModel {
    Element {
        tag: Seq<char>,
        classes: Seq<Seq<char>>,
        attributes: Seq<(Seq<char>, Seq<char>)>,
        children: Seq<HtmlModel>,
    },
    Text { content: Seq<char> },
    List { list: Seq<HtmlModel> },
    Raw { markup: Seq<char> },
}

/// The model of a piece of HTML.
pub open spec fn html_model(h: Html) -> HtmlModel
    decreases h via html_model_decreases
{
    match h {
        Html::Element(e) => HtmlModel::Element {
            tag: e.tag@,
            classes: strs(e.classes@),
            attributes: attrs_pairs(e.attributes@),
            children: html_models(e.children@),
        },
        Html::Text(t) => HtmlModel::Text { content: t.content@ },
        Html::List(l) => HtmlModel::List { list: html_models(l.list@) },
        Html::Raw(s) => HtmlModel::Raw { markup: s@ },
    }
}

#[via_fn]
proof fn html_model_decreases(h: Html) {
    match h {
        Html::Element(e) => {
            assert(decreases_to!(h => e));
            assert(decreases_to!(e => e.children));
            assert(decreases_to!(e.children => e.children@));
        },
        Html::List(l) => {
            assert(decreases_to!(h => l));
            assert(decreases_to!(l => l.list));
            assert(decreases_to!(l.list => l.list@));
        },
        _ => {},
    }
}

/// The models of a sequence of HTML pieces.
pub open spec fn html_models(hs: Seq<Html>) -> Seq<HtmlModel>
    decreases hs, hs.len(),
{
    if hs.len() == 0 {
        Seq::empty()
    } else {
        seq![html_model(hs[0])] + html_models(hs.drop_first())
    }
}

/// The models of a sequence of HTML pieces, element by element.
pub proof fn lemma_html_models_index(hs: Seq<Html>)
    ensures
        html_models(hs).len() == hs.len(),
        forall|i: int| 0 <= i < hs.len() ==> html_models(hs)[i] == html_model(hs[i]),
    decreases hs.len(),
{
    if hs.len() > 0 {
        lemma_html_models_index(hs.drop_first());
    }
}

/// The model of an element under construction.
pub open spec fn element_model(e: HtmlElement) -> HtmlModel {
    html_model(Html::Element(e))
}

impl Html {
    /// A `<p>` element holding the text.
    pub fn p(text: &str) -> (r: Html)
        ensures
            html_model(r) == (HtmlModel::Element {
                tag: "p"@,
                classes: Seq::empty(),
                attributes: Seq::empty(),
                children: seq![HtmlModel::Text { content: text@ }],
            }),
    {
        let r = Html::Element(HtmlElement::new("p").with_text(text));
        proof {
            lemma_html_models_index(r->Element_0.children@);
            assert(html_model(r)->Element_children =~= seq![
                HtmlModel::Text { content: text@ },
            ]);
            assert(html_model(r)->Element_classes =~= Seq::<Seq<char>>::empty());
            assert(html_model(r)->Element_attributes =~= Seq::<(Seq<char>, Seq<char>)>::empty());
            assert(html_model(r) =~~= (HtmlModel::Element {
                tag: "p"@,
                classes: Seq::empty(),
                attributes: Seq::empty(),
                children: seq![HtmlModel::Text { content: text@ }],
            }));
        }
        r
    }

    /// A `<div>` element holding the text.
    pub fn div(text: &str) -> (r: Html)
        ensures
            html_model(r) == (HtmlModel::Element {
                tag: "div"@,
                classes: Seq::empty(),
                attributes: Seq::empty(),
                children: seq![HtmlModel::Text { content: text@ }],
            }),
    {
        let r = Html::Element(HtmlElement::new("div").with_text(text));
        proof {
            lemma_html_models_index(r->Element_0.children@);
            assert(html_model(r) =~~= (HtmlModel::Element {
                tag: "div"@,
                classes: Seq::empty(),
                attributes: Seq::empty(),
                children: seq![HtmlModel::Text { content: text@ }],
            }));
        }
        r
    }

    /// A `<span>` element with the classes, holding the text.
    pub fn span(classes: &Vec<String>, text: &str) -> (r: Html)
        ensures
            html_model(r) == (HtmlModel::Element {
                tag: "span"@,
                classes: strs(classes@),
                attributes: Seq::empty(),
                children: seq![HtmlModel::Text { content: text@ }],
            }),
    {
        let r = Html::Element(HtmlElement::new("span").with_classes(classes).with_text(text));
        proof {
            lemma_html_models_index(r->Element_0.children@);
            assert(html_model(r) =~~= (HtmlModel::Element {
                tag: "span"@,
                classes: strs(classes@),
                attributes: Seq::empty(),
                children: seq![HtmlModel::Text { content: text@ }],
            }));
        }
        r
    }

    /// An `<i>` feather-icon element.
    pub fn feather(icon: &str) -> (r: Html)
        ensures
            html_model(r) == (HtmlModel::Element {
                tag: "i"@,
                classes: Seq::empty(),
                attributes: seq![("data-feather"@, icon@)],
                children: Seq::empty(),
            }),
    {
        let e = HtmlElement::new("i").with_attr("data-feather", icon.to_owned());
        let ghost ge = e;
        proof {
            assert(attrs_pairs(ge.attributes@) =~~= seq![("data-feather"@, icon@)]);
        }
        let r = Html::Element(e);
        proof {
            lemma_html_models_index(ge.children@);
            assert(html_model(r)->Element_attributes =~~= seq![("data-feather"@, icon@)]);
            assert(html_model(r) =~~= (HtmlModel::Element {
                tag: "i"@,
                classes: Seq::empty(),
                attributes: seq![("data-feather"@, icon@)],
                children: Seq::empty(),
            }));
        }
        r
    }

    /// This piece as a child list entry.
    pub fn into_html(self) -> (r: Html)
        ensures
            r == self,
    {
        self
    }
}

impl HtmlElement {
    /// An element with the tag and nothing else.
    pub fn new(tag: &str) -> (r: HtmlElement)
        ensures
            r.tag@ == tag@,
            r.classes@ == Seq::<String>::empty(),
            r.attributes@ == Seq::<(String, String)>::empty(),
            r.children@ == Seq::<Html>::empty(),
    {
        HtmlElement {
            tag: tag.to_owned(),
            classes: Vec::new(),
            attributes: Vec::new(),
            children: Vec::new(),
        }
    }

    /// Whether the element carries the class.
    pub fn has_class(&self, name: &str) -> (r: bool)
        ensures
            r == (exists|i: int| 0 <= i < self.classes@.len() && (#[trigger] self.classes@[i])@ == name@),
    {
        let mut i: usize = 0;
        while i < self.classes.len()
            invariant
                i <= self.classes@.len(),
                forall|j: int| 0 <= j < i ==> (#[trigger] self.classes@[j])@ != name@,
            decreases self.classes@.len() - i,
        {
            if crate::linker::str_eq_str(self.classes[i].as_str(), name) {
                return true;
            }
            i += 1;
        }
        false
    }

    /// The element with the class appended.
    pub fn with_class(self, name: &str) -> (r: HtmlElement)
        ensures
            r.tag == self.tag,
            r.classes@.len() == self.classes@.len() + 1,
            forall|i: int| 0 <= i < self.classes@.len() ==> r.classes@[i] == self.classes@[i],
            r.classes@.last()@ == name@,
            r.attributes == self.attributes,
            r.children == self.children,
    {
        let mut e = self;
        let owned = name.to_owned();
        e.classes.push(owned);
        proof {
            assert(e.classes@.last()@ == name@);
        }
        e
    }

    /// The element with every class of the list appended, in order.
    pub fn with_classes(self, classes: &Vec<String>) -> (r: HtmlElement)
        ensures
            r.tag == self.tag,
            r.classes@.len() == self.classes@.len() + classes@.len(),
            forall|i: int| 0 <= i < self.classes@.len() ==> r.classes@[i] == self.classes@[i],
            forall|i: int|
                self.classes@.len() <= i < r.classes@.len() ==> (#[trigger] r.classes@[i])@
                    == classes@[i - self.classes@.len()]@,
            r.attributes == self.attributes,
            r.children == self.children,
    {
        let mut e = self;
        let ghost base = e.classes@;
        let mut i: usize = 0;
        while i < classes.len()
            invariant
                i <= classes@.len(),
                e.classes@.len() == base.len() + i,
                forall|j: int| 0 <= j < base.len() ==> e.classes@[j] == base[j],
                forall|j: int|
                    base.len() <= j < e.classes@.len() ==> (#[trigger] e.classes@[j])@
                        == classes@[j - base.len()]@,
                e.tag == self.tag,
                e.attributes == self.attributes,
                e.children == self.children,
            decreases classes@.len() - i,
    {
            e.classes.push(classes[i].clone());
            i += 1;
        }
        e
    }

    /// The element with the class appended when one is given.
    pub fn with_class_opt(self, name: Option<&str>) -> (r: HtmlElement)
        ensures
            match name {
                Some(n) => r.classes@.len() == self.classes@.len() + 1 && r.classes@.last()@ == n@
                    && (forall|i: int|
                    0 <= i < self.classes@.len() ==> r.classes@[i] == self.classes@[i]) && r.tag
                    == self.tag && r.attributes == self.attributes && r.children == self.children,
                None => r == self,
            },
    {
        match name {
            Some(n) => self.with_class(n),
            None => self,
        }
    }

    /// Whether the element has children.
    pub fn has_children(&self) -> (r: bool)
        ensures
            r == (self.children@.len() > 0),
    {
        self.children.len() > 0
    }

    /// Appends a child.
    pub fn add_child(&mut self, child: Html)
        ensures
            final(self).children@ == old(self).children@.push(child),
            final(self).tag == old(self).tag,
            final(self).classes == old(self).classes,
            final(self).attributes == old(self).attributes,
    {
        self.children.push(child);
    }

    /// Appends a child when one is given.
    pub fn add_child_opt(&mut self, child: Option<Html>)
        ensures
            match child {
                Some(c) => ({
                    &&& final(self).children@ == old(self).children@.push(c)
                    &&& final(self).tag == old(self).tag
                    &&& final(self).classes == old(self).classes
                    &&& final(self).attributes == old(self).attributes
                }),
                None => *final(self) == *old(self),
            },
    {
        match child {
            Some(c) => self.children.push(c),
            None => {},
        }
    }

    /// The element with the child appended.
    pub fn with_child(self, child: Html) -> (r: HtmlElement)
        ensures
            r.children@ == self.children@.push(child),
            r.tag == self.tag,
            r.classes == self.classes,
            r.attributes == self.attributes,
    {
        let mut e = self;
        e.children.push(child);
        e
    }

    /// The element with every child of the list appended, in order.
    pub fn with_children(self, children: Vec<Html>) -> (r: HtmlElement)
        ensures
            r.children@ == self.children@ + children@,
            r.tag == self.tag,
            r.classes == self.classes,
            r.attributes == self.attributes,
    {
        let mut e = self;
        let mut children = children;
        let ghost base = e.children@;
        let ghost add = children@;
        let mut i: usize = 0;
        while children.len() > 0
            invariant
                e.children@ + children@ == base + add,
                e.tag == self.tag,
                e.classes == self.classes,
                e.attributes == self.attributes,
            decreases children@.len(),
        {
            let c = children.remove(0);
            proof {
                assert(e.children@.push(c) + children@ =~= e.children@ + (seq![c] + children@));
                assert(seq![c] + children@ =~= children@.insert(0, c));
            }
            e.children.push(c);
        }
        proof {
            assert(e.children@ =~= e.children@ + children@);
            assert(e.children@ =~= base + add);
        }
        e
    }

    /// The element with the child appended when one is given.
    pub fn with_child_opt(self, child: Option<Html>) -> (r: HtmlElement)
        ensures
            match child {
                Some(c) => r.children@ == self.children@.push(c) && r.tag == self.tag && r.classes
                    == self.classes && r.attributes == self.attributes,
                None => r == self,
            },
    {
        match child {
            Some(c) => self.with_child(c),
            None => self,
        }
    }

    /// The element with an escaped-text child appended.
    pub fn with_text(self, text: &str) -> (r: HtmlElement)
        ensures
            r.children@.len() == self.children@.len() + 1,
            forall|i: int| 0 <= i < self.children@.len() ==> r.children@[i] == self.children@[i],
            html_model(r.children@.last()) == (HtmlModel::Text { content: text@ }),
            r.tag == self.tag,
            r.classes == self.classes,
            r.attributes == self.attributes,
    {
        let t = HtmlText::new(text);
        proof {
            assert(t.content@ == text@);
        }
        self.with_child(Html::Text(t))
    }

    /// Whether an attribute with the name is present.
    pub fn has_attr(&self, attr: &str) -> (r: bool)
        ensures
            r == (exists|i: int|
                0 <= i < self.attributes@.len() && (#[trigger] self.attributes@[i]).0@ == attr@),
    {
        let mut i: usize = 0;
        while i < self.attributes.len()
            invariant
                i <= self.attributes@.len(),
                forall|j: int| 0 <= j < i ==> (#[trigger] self.attributes@[j]).0@ != attr@,
            decreases self.attributes@.len() - i,
        {
            if crate::linker::str_eq_str(self.attributes[i].0.as_str(), attr) {
                return true;
            }
            i += 1;
        }
        false
    }

    /// Sets an attribute: the value replaces an earlier one under the same
    /// name, or the pair is appended.
    pub fn set_attr(&mut self, attr: &str, value: String)
        ensures
            final(self).tag == old(self).tag,
            final(self).classes == old(self).classes,
            final(self).children == old(self).children,
            attrs_pairs(final(self).attributes@) == insert_attr_plain(
                attrs_pairs(old(self).attributes@),
                attr@,
                value@,
            ),
    {
        let ghost av = attrs_pairs(self.attributes@);
        let n = self.attributes.len();
        let mut i: usize = 0;
        let mut found = false;
        proof {
            lemma_find_attr_plain_bounds(av, attr@, 0);
        }
        loop
            invariant_except_break
                i <= n,
                !found,
                n == self.attributes@.len(),
                av == attrs_pairs(self.attributes@),
                find_attr_plain(av, attr@, 0) == find_attr_plain(av, attr@, i as int),
            ensures
                n == self.attributes@.len(),
                av == attrs_pairs(self.attributes@),
                found ==> i < n && find_attr_plain(av, attr@, 0) == i as int,
                !found ==> find_attr_plain(av, attr@, 0) == n as int,
            decreases n - i,
        {
            if i >= n {
                break;
            }
            if crate::linker::str_eq_str(self.attributes[i].0.as_str(), attr) {
                proof {
                    assert(av[i as int].0 == attr@);
                }
                found = true;
                break;
            }
            proof {
                assert(av[i as int].0 != attr@);
            }
            i += 1;
        }
        let pair = (attr.to_owned(), value);
        let ghost gpair = pair;
        let ghost prev = self.attributes@;
        if found {
            self.attributes[i] = pair;
            proof {
                assert(forall|k: int|
                    0 <= k < prev.len() && k != i as int ==> self.attributes@[k] == prev[k]);
                assert(forall|k: int|
                    0 <= k < prev.len() && k != i as int ==> #[trigger] attrs_pairs(
                        self.attributes@,
                    )[k] == av[k]);
                assert(self.attributes@[i as int] == gpair);
                assert(attrs_pairs(self.attributes@)[i as int].0 == attr@);
                assert(attrs_pairs(self.attributes@)[i as int].1 == gpair.1@);
                assert(attrs_pairs(self.attributes@) =~~= av.update(i as int, (attr@, gpair.1@)));
            }
        } else {
            self.attributes.push(pair);
            proof {
                assert(forall|k: int| 0 <= k < prev.len() ==> self.attributes@[k] == prev[k]);
                assert(forall|k: int|
                    0 <= k < prev.len() ==> #[trigger] attrs_pairs(self.attributes@)[k] == av[k]);
                assert(self.attributes@[prev.len() as int] == gpair);
                assert(attrs_pairs(self.attributes@)[prev.len() as int].0 == attr@);
                assert(attrs_pairs(self.attributes@)[prev.len() as int].1 == gpair.1@);
                assert(attrs_pairs(self.attributes@) =~~= av.push((attr@, gpair.1@)));
            }
        }
    }

    /// The element with the attribute set.
    pub fn with_attr(self, attr: &str, value: String) -> (r: HtmlElement)
        ensures
            r.tag == self.tag,
            r.classes == self.classes,
            r.children == self.children,
            attrs_pairs(r.attributes@) == insert_attr_plain(
                attrs_pairs(self.attributes@),
                attr@,
                value@,
            ),
    {
        let mut e = self;
        e.set_attr(attr, value);
        e
    }

    /// The element with the attribute set when a value is given.
    pub fn with_attr_opt(self, attr: &str, value: Option<String>) -> (r: HtmlElement)
        ensures
            match value {
                Some(v) => r.tag == self.tag && r.classes == self.classes && r.children
                    == self.children,
                None => r == self,
            },
    {
        match value {
            Some(v) => self.with_attr(attr, v),
            None => self,
        }
    }

    /// The element with every attribute of the list set, in order.
    pub fn with_attrs(self, attrs: &Vec<(String, String)>) -> (r: HtmlElement)
        ensures
            r.tag == self.tag,
            r.classes == self.classes,
            r.children == self.children,
    {
        let mut e = self;
        let mut i: usize = 0;
        while i < attrs.len()
            invariant
                i <= attrs@.len(),
                e.tag == self.tag,
                e.classes == self.classes,
                e.children == self.children,
            decreases attrs@.len() - i,
        {
            e.set_attr(attrs[i].0.as_str(), attrs[i].1.clone());
            i += 1;
        }
        e
    }

    /// This element as a piece of HTML.
    pub fn into_html(self) -> (r: Html)
        ensures
            r == Html::Element(self),
    {
        Html::Element(self)
    }
}

impl HtmlText {
    /// Text content.
    pub fn new(content: &str) -> (r: HtmlText)
        ensures
            r.content@ == content@,
    {
        HtmlText { content: content.to_owned() }
    }

    /// This text as a piece of HTML.
    pub fn into_html(self) -> (r: Html)
        ensures
            r == Html::Text(self),
    {
        Html::Text(self)
    }
}

impl HtmlList {
    /// A list of sibling pieces.
    pub fn new(list: Vec<Html>) -> (r: HtmlList)
        ensures
            r.list == list,
    {
        HtmlList { list }
    }

    /// This list as a piece of HTML.
    pub fn into_html(self) -> (r: Html)
        ensures
            r == Html::List(self),
    {
        Html::List(self)
    }
}

/// The first index at or after `i` of the attribute with the given name.
pub open spec fn find_attr_plain(attrs: Seq<(Seq<char>, Seq<char>)>, key: Seq<char>, i: int) -> int
    decreases attrs.len() - i when 0 <= i <= attrs.len()
{
    if i >= attrs.len() {
        attrs.len() as int
    } else if attrs[i].0 == key {
        i
    } else {
        find_attr_plain(attrs, key, i + 1)
    }
}

pub proof fn lemma_find_attr_plain_bounds(
    attrs: Seq<(Seq<char>, Seq<char>)>,
    key: Seq<char>,
    i: int,
)
    requires
        0 <= i <= attrs.len(),
    ensures
        i <= find_attr_plain(attrs, key, i) <= attrs.len(),
    decreases attrs.len() - i,
{
    if i < attrs.len() && attrs[i].0 != key {
        lemma_find_attr_plain_bounds(attrs, key, i + 1);
    }
}

/// Sets an attribute with map semantics: the value replaces an earlier one
/// under the same name, or the pair is appended.
pub open spec fn insert_attr_plain(
    attrs: Seq<(Seq<char>, Seq<char>)>,
    key: Seq<char>,
    val: Seq<char>,
) -> Seq<(Seq<char>, Seq<char>)> {
    let i = find_attr_plain(attrs, key, 0);
    if i < attrs.len() {
        attrs.update(i, (key, val))
    } else {
        attrs.push((key, val))
    }
}

/// The text with `<` and `>` replaced by their HTML entities.
pub open spec fn sanitized(s: Seq<char>) -> Seq<char>
    decreases s.len(),
{
    if s.len() == 0 {
        Seq::empty()
    } else {
        sanitized(s.drop_last()) + (if s.last() == '<' {
            "&lt;"@
        } else if s.last() == '>' {
            "&gt;"@
        } else {
            seq![s.last()]
        })
    }
}

/// The text with `<` and `>` replaced by their HTML entities.
pub fn sanitize_html(html: &str) -> (r: String)
    ensures
        r@ == sanitized(html@),
{
    proof {
        reveal_strlit("&lt;");
        reveal_strlit("&gt;");
    }
    let chars = crate::strings::chars_vec(html);
    let mut out = String::new();
    let mut i: usize = 0;
    while i < chars.len()
        invariant
            i <= chars@.len(),
            chars@ == html@,
            out@ == sanitized(html@.take(i as int)),
        decreases chars@.len() - i,
    {
        let c = chars[i];
        if c == '<' {
            out.append("&lt;");
        } else if c == '>' {
            out.append("&gt;");
        } else {
            push_char(&mut out, c);
        }
        i += 1;
        proof {
            assert(html@.take(i as int).drop_last() =~= html@.take(i - 1));
            assert(html@.take(i as int).last() == c);
            assert(out@ =~= sanitized(html@.take(i as int)));
        }
    }
    proof {
        assert(html@.take(html@.len() as int) =~= html@);
    }
    out
}


/// The strings joined by the separator character.
pub open spec fn join_char(ss: Seq<Seq<char>>, sep: char) -> Seq<char>
    decreases ss.len(),
{
    if ss.len() == 0 {
        Seq::empty()
    } else if ss.len() == 1 {
        ss[0]
    } else {
        ss[0] + seq![sep] + join_char(ss.drop_first(), sep)
    }
}

/// Joining one more string appends a separator and the string.
pub proof fn lemma_join_char_snoc(ss: Seq<Seq<char>>, x: Seq<char>, sep: char)
    ensures
        join_char(ss.push(x), sep) == if ss.len() == 0 {
            x
        } else {
            join_char(ss, sep) + seq![sep] + x
        },
    decreases ss.len(),
{
    if ss.len() == 0 {
        assert(ss.push(x)[0] =~= x);
        assert(join_char(ss.push(x), sep) == x);
    } else {
        assert(ss.push(x).drop_first() =~= ss.drop_first().push(x));
        lemma_join_char_snoc(ss.drop_first(), x, sep);
        if ss.len() == 1 {
            assert(join_char(ss.push(x), sep) =~= ss[0] + seq![sep] + x);
            assert(join_char(ss, sep) + seq![sep] + x =~= ss[0] + seq![sep] + x);
        } else {
            assert(join_char(ss.push(x), sep) =~= join_char(ss, sep) + seq![sep] + x);
        }
    }
}

/// What `str::escape_default` yields for the string.
pub uninterp spec fn default_escaped(s: Seq<char>) -> Seq<char>;

/// Relies on str::escape_default: the escape of each character depends on
/// the characters alone.
#[verifier::external_body]
fn escape_default_str(s: &str) -> (r: String)
    ensures
        r@ == default_escaped(s@),
{
    s.escape_default().to_string()
}

/// One rendered attribute: `name="value"`, the value escaped except for
/// inline handlers, whose markup is kept as written.
pub open spec fn spec_gen_attr(attr: (Seq<char>, Seq<char>)) -> Seq<char> {
    attr.0 + seq!['=', '"'] + (if attr.0 == "onclick"@ {
        attr.1
    } else {
        default_escaped(attr.1)
    }) + seq!['"']
}

/// The rendered attribute list, space-separated.
pub open spec fn spec_gen_attrs(attrs: Seq<(Seq<char>, Seq<char>)>) -> Seq<char> {
    join_char(Seq::new(attrs.len(), |i: int| spec_gen_attr(attrs[i])), ' ')
}

/// The rendered class list: `class="..."`, or nothing without classes.
pub open spec fn spec_gen_classes(classes: Seq<Seq<char>>) -> Seq<char> {
    if classes.len() == 0 {
        Seq::empty()
    } else {
        "class=\""@ + join_char(classes, ' ') + seq!['"']
    }
}

/// The rendered markup of a piece of HTML: elements carry their classes,
/// attributes and children; text is entity-escaped; lists and children are
/// joined by single spaces; raw markup passes through.
pub open spec fn spec_gen_html(h: HtmlModel) -> Seq<char>
    decreases h, 1int, 0int,
{
    match h {
        HtmlModel::Element { tag, classes, attributes, children } => seq!['<'] + tag + seq![' ']
            + spec_gen_classes(classes) + seq![' '] + spec_gen_attrs(attributes) + seq!['>']
            + spec_gen_children(children, 0) + "</"@ + tag + seq!['>'],
        HtmlModel::Text { content } => sanitized(content),
        HtmlModel::List { list } => spec_gen_children(list, 0),
        HtmlModel::Raw { markup } => markup,
    }
}

/// The rendered children from index `i` on, joined by single spaces.
pub open spec fn spec_gen_children(hs: Seq<HtmlModel>, i: int) -> Seq<char>
    decreases hs, 0int, hs.len() - i when 0 <= i <= hs.len() via spec_gen_children_decreases
{
    if i >= hs.len() {
        Seq::empty()
    } else if i == hs.len() - 1 {
        spec_gen_html(hs[i])
    } else {
        spec_gen_html(hs[i]) + seq![' '] + spec_gen_children(hs, i + 1)
    }
}

#[via_fn]
proof fn spec_gen_children_decreases(hs: Seq<HtmlModel>, i: int) {
    if 0 <= i < hs.len() {
        vstd::seq::axiom_seq_index_decreases(hs, i);
    }
}

impl Html {
    /// Renders this piece of HTML, as [`spec_gen_html`] describes.
    pub fn gen_html(&self) -> (r: String)
        ensures
            r@ == spec_gen_html(html_model(*self)),
        decreases *self, 1int,
    {
        match self {
            Html::Element(e) => e.gen_html_element(),
            Html::Text(t) => sanitize_html(t.content.as_str()),
            Html::List(l) => {
                proof {
                    assert(decreases_to!(*self => *l));
                    assert(decreases_to!(*l => l.list));
                    assert(decreases_to!(l.list => l.list@));
                }
                gen_children(&l.list)
            },
            Html::Raw(s) => s.clone(),
        }
    }
}

impl HtmlElement {
    /// Renders this element, as [`spec_gen_html`] describes for elements.
    pub fn gen_html_element(&self) -> (r: String)
        ensures
            r@ == spec_gen_html(element_model(*self)),
        decreases *self, 0int,
    {
        proof {
            reveal_strlit("class=\"");
            reveal_strlit("</");
        }
        let mut out = String::new();
        push_char(&mut out, '<');
        out.append(self.tag.as_str());
        push_char(&mut out, ' ');
        if self.classes.len() > 0 {
            out.append("class=\"");
            let mut i: usize = 0;
            let ghost cls = strs(self.classes@);
            proof {
                assert(cls.take(0) =~= Seq::<Seq<char>>::empty());
            }
            let mut joined = String::new();
            while i < self.classes.len()
                invariant
                    i <= self.classes@.len(),
                    cls == strs(self.classes@),
                    joined@ == join_char(cls.take(i as int), ' '),
                decreases self.classes@.len() - i,
            {
                if i > 0 {
                    push_char(&mut joined, ' ');
                }
                joined.append(self.classes[i].as_str());
                i += 1;
                proof {
                    assert(cls.take(i as int).drop_last() =~= cls.take(i - 1));
                    lemma_join_char_snoc(cls.take(i - 1), cls[i - 1], ' ');
                    assert(cls.take(i as int) =~= cls.take(i - 1).push(cls[i - 1]));
                    assert(joined@ =~= join_char(cls.take(i as int), ' '));
                }
            }
            proof {
                assert(cls.take(cls.len() as int) =~= cls);
            }
            out.append(joined.as_str());
            push_char(&mut out, '"');
            proof {
                assert(strs(self.classes@).len() == self.classes@.len());
                assert(joined@ == join_char(strs(self.classes@), ' '));
                assert(spec_gen_classes(strs(self.classes@)) == "class=\""@ + join_char(
                    strs(self.classes@),
                    ' ',
                ) + seq!['"']);
                assert(out@ =~= seq!['<'] + self.tag@ + seq![' '] + spec_gen_classes(
                    strs(self.classes@),
                ));
            }
        } else {
            proof {
                assert(strs(self.classes@).len() == 0);
                assert(out@ =~= seq!['<'] + self.tag@ + seq![' '] + spec_gen_classes(
                    strs(self.classes@),
                ));
            }
        }
        push_char(&mut out, ' ');
        let ghost ats = attrs_pairs(self.attributes@);
        let ghost rendered = Seq::new(ats.len(), |i: int| spec_gen_attr(ats[i]));
        let mut joined = String::new();
        let mut i: usize = 0;
        proof {
            assert(rendered.take(0) =~= Seq::<Seq<char>>::empty());
        }
        while i < self.attributes.len()
            invariant
                i <= self.attributes@.len(),
                ats == attrs_pairs(self.attributes@),
                rendered == Seq::new(ats.len(), |k: int| spec_gen_attr(ats[k])),
                joined@ == join_char(rendered.take(i as int), ' '),
            decreases self.attributes@.len() - i,
        {
            if i > 0 {
                push_char(&mut joined, ' ');
            }
            proof {
                reveal_strlit("onclick");
            }
            joined.append(self.attributes[i].0.as_str());
            push_char(&mut joined, '=');
            push_char(&mut joined, '"');
            if crate::linker::str_eq_str(self.attributes[i].0.as_str(), "onclick") {
                joined.append(self.attributes[i].1.as_str());
            } else {
                let esc = escape_default_str(self.attributes[i].1.as_str());
                joined.append(esc.as_str());
            }
            push_char(&mut joined, '"');
            i += 1;
            proof {
                assert(rendered[i - 1] == spec_gen_attr(ats[i - 1]));
                assert(rendered.take(i as int).drop_last() =~= rendered.take(i - 1));
                lemma_join_char_snoc(rendered.take(i - 1), rendered[i - 1], ' ');
                assert(rendered.take(i as int) =~= rendered.take(i - 1).push(rendered[i - 1]));
                assert(joined@ =~= join_char(rendered.take(i as int), ' '));
            }
        }
        proof {
            assert(rendered.take(rendered.len() as int) =~= rendered);
        }
        out.append(joined.as_str());
        push_char(&mut out, '>');
        proof {
            assert(decreases_to!(*self => self.children));
            assert(decreases_to!(self.children => self.children@));
        }
        let kids = gen_children(&self.children);
        out.append(kids.as_str());
        out.append("</");
        out.append(self.tag.as_str());
        push_char(&mut out, '>');
        proof {
            assert(out@ =~= spec_gen_html(element_model(*self)));
        }
        out
    }
}

/// Renders a list of sibling pieces, joined by single spaces.
fn gen_children(hs: &Vec<Html>) -> (r: String)
    ensures
        r@ == spec_gen_children(html_models(hs@), 0),
    decreases hs@, 2int,
{
    proof {
        lemma_html_models_index(hs@);
    }
    let ghost models = html_models(hs@);
    let mut out = String::new();
    let mut i: usize = 0;
    while i < hs.len()
        invariant
            i <= hs@.len(),
            models == html_models(hs@),
            models.len() == hs@.len(),
            out@ + spec_gen_children(models, i as int) == spec_gen_children(models, 0),
        decreases hs@.len() - i,
    {
        proof {
            lemma_html_models_index(hs@);
            vstd::seq::axiom_seq_index_decreases(hs@, i as int);
        }
        let piece = hs[i].gen_html();
        out.append(piece.as_str());
        if i + 1 < hs.len() {
            push_char(&mut out, ' ');
        }
        i += 1;
        proof {
            assert(out@ + spec_gen_children(models, i as int) =~= spec_gen_children(models, 0));
        }
    }
    proof {
        assert(out@ =~= spec_gen_children(models, 0));
    }
    out
}

/// Rendering to final markup.
pub trait GenHtml {
    /// The rendered markup.
    fn gen_html_string(self) -> String;
}

impl GenHtml for Html {
    fn gen_html_string(self) -> String {
        self.gen_html()
    }
}

impl GenHtml for HtmlElement {
    fn gen_html_string(self) -> String {
        self.gen_html_element()
    }
}

impl GenHtml for HtmlText {
    fn gen_html_string(self) -> String {
        sanitize_html(self.content.as_str())
    }
}

impl GenHtml for HtmlList {
    fn gen_html_string(self) -> String {
        gen_children(&self.list)
    }
}


/// The rendered section of a listing page: an open collapsible block whose
/// summary holds a chevron, the title and a badge with the entry count, and
/// whose body holds the entries.
pub open spec fn spec_fmt_section(title: Seq<char>, data: Seq<HtmlModel>) -> HtmlModel {
    HtmlModel::Element {
        tag: "details"@,
        classes: seq!["section"@],
        attributes: seq![("open"@, ""@)],
        children: seq![
            HtmlModel::Element {
                tag: "summary"@,
                classes: Seq::empty(),
                attributes: Seq::empty(),
                children: seq![
                    HtmlModel::Element {
                        tag: "span"@,
                        classes: Seq::empty(),
                        attributes: Seq::empty(),
                        children: seq![
                            HtmlModel::Element {
                                tag: "i"@,
                                classes: Seq::empty(),
                                attributes: seq![("data-feather"@, "chevron-right"@)],
                                children: Seq::empty(),
                            },
                            HtmlModel::Text { content: title },
                            HtmlModel::Element {
                                tag: "span"@,
                                classes: seq!["badge"@],
                                attributes: Seq::empty(),
                                children: seq![
                                    HtmlModel::Text {
                                        content: crate::strings::dec_str(data.len() as int),
                                    },
                                ],
                            },
                        ],
                    },
                ],
            },
            HtmlModel::Element {
                tag: "div"@,
                classes: Seq::empty(),
                attributes: Seq::empty(),
                children: seq![HtmlModel::List { list: data }],
            },
        ],
    }
}

/// A section of a listing page, as [`spec_fmt_section`] describes.
pub fn fmt_section(title: &str, data: Vec<Html>) -> (r: Html)
    ensures
        html_model(r) == spec_fmt_section(title@, html_models(data@)),
{
    proof {
        reveal_strlit("section");
        reveal_strlit("badge");
        reveal_strlit("chevron-right");
        reveal_strlit("open");
        reveal_strlit("");
        assert(""@.len() == 0);
    }
    let count = crate::strings::usize_to_string(data.len());
    let ghost dmodels = html_models(data@);
    proof {
        lemma_html_models_index(data@);
    }
    let chevron = HtmlElement::new("i").with_attr(
        "data-feather",
        String::from_str("chevron-right"),
    );
    let ghost gchevron = chevron;
    let mut badge_classes: Vec<String> = Vec::new();
    badge_classes.push(String::from_str("badge"));
    let badge = Html::span(&badge_classes, count.as_str());
    let ghost gbadge = badge;
    let inner = HtmlElement::new("span").with_child(Html::Element(chevron)).with_text(
        title,
    ).with_child(badge);
    let ghost ginner = inner;
    let summary = HtmlElement::new("summary").with_child(Html::Element(inner));
    let ghost gsummary = summary;
    let body = HtmlElement::new("div").with_child(Html::List(HtmlList::new(data)));
    let ghost gbody = body;
    let details = HtmlElement::new("details").with_attr("open", String::new()).with_class(
        "section",
    ).with_child(Html::Element(summary)).with_child(Html::Element(body));
    let ghost gd = details;
    let r = Html::Element(details);
    proof {
        lemma_html_models_index(gchevron.children@);
        lemma_html_models_index(ginner.children@);
        lemma_html_models_index(gsummary.children@);
        lemma_html_models_index(gbody.children@);
        lemma_html_models_index(gd.children@);
        assert(html_models(gchevron.children@) =~= Seq::<HtmlModel>::empty());
        assert(attrs_pairs(gchevron.attributes@) =~~= seq![("data-feather"@, "chevron-right"@)]);
        assert(strs(gchevron.classes@) =~~= Seq::<Seq<char>>::empty());
        assert(strs(badge_classes@) =~~= seq!["badge"@]);
        assert(strs(ginner.classes@) =~~= Seq::<Seq<char>>::empty());
        assert(attrs_pairs(ginner.attributes@) =~~= Seq::<(Seq<char>, Seq<char>)>::empty());
        assert(strs(gsummary.classes@) =~~= Seq::<Seq<char>>::empty());
        assert(attrs_pairs(gsummary.attributes@) =~~= Seq::<(Seq<char>, Seq<char>)>::empty());
        assert(strs(gbody.classes@) =~~= Seq::<Seq<char>>::empty());
        assert(attrs_pairs(gbody.attributes@) =~~= Seq::<(Seq<char>, Seq<char>)>::empty());
        assert(strs(gd.classes@) =~~= seq!["section"@]);
        assert(attrs_pairs(gd.attributes@) =~~= seq![("open"@, ""@)]);
        assert(html_model(r)->Element_tag =~~= spec_fmt_section(title@, dmodels)->Element_tag);
        assert(html_model(r)->Element_classes =~~= spec_fmt_section(
            title@,
            dmodels,
        )->Element_classes);
        assert(html_model(r)->Element_attributes =~~= spec_fmt_section(
            title@,
            dmodels,
        )->Element_attributes);
        assert(html_model(gbadge) =~~= (HtmlModel::Element {
            tag: "span"@,
            classes: seq!["badge"@],
            attributes: Seq::empty(),
            children: seq![
                HtmlModel::Text { content: crate::strings::dec_str(dmodels.len() as int) },
            ],
        }));
        assert(html_models(ginner.children@) =~~= seq![
            html_model(Html::Element(gchevron)),
            HtmlModel::Text { content: title@ },
            html_model(gbadge),
        ]);
        assert(html_model(Html::Element(ginner)) =~~= spec_fmt_section(
            title@,
            dmodels,
        )->Element_children[0]->Element_children[0]);
        assert(html_models(gsummary.children@) =~~= spec_fmt_section(
            title@,
            dmodels,
        )->Element_children[0]->Element_children);
        assert(html_models(gbody.children@) =~~= spec_fmt_section(
            title@,
            dmodels,
        )->Element_children[1]->Element_children);
        assert(html_model(r)->Element_children =~~= spec_fmt_section(
            title@,
            dmodels,
        )->Element_children);
        assert(html_model(r) =~~= spec_fmt_section(title@, dmodels));
    }
    r
}

} // verus!
