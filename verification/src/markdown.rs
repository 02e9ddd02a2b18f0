//! Markdown-adjacent text processing: emoji shortcode substitution, the
//! front-matter metadata split, link-destination rewriting, and the title
//! resolution of tutorial pages. The markdown event stream itself comes
//! from the external renderer; the decisions about its text are made here.

use vstd::prelude::*;

use crate::config::Config;
use crate::strings::char_alphanumeric;
use crate::strings::char_whitespace;
use crate::strings::chars_vec;
use crate::strings::is_alphanumeric_char;
use crate::strings::push_char;
use crate::strings::string_from_chars;
use crate::url_path::UrlPath;
use vstd::string::StrSliceExecFns;

verus! {

/// What `emojis::get_by_shortcode` yields for a shortcode: the emoji's
/// text, or nothing for an unknown code.
pub uninterp spec fn emoji_of(name: Seq<char>) -> Option<Seq<char>>;

/// Relies on emojis::get_by_shortcode: a table lookup by the shortcode
/// alone.
#[verifier::external_body]
fn emoji_by_shortcode(s: &str) -> (r: Option<String>)
    ensures
        r is Some <==> emoji_of(s@) is Some,
        r is Some ==> r->0@ == emoji_of(s@)->0,
{
    emojis::get_by_shortcode(s).map(|e| e.as_str().to_owned())
}

/// The first index at or after `j` that cannot continue a shortcode: not
/// alphanumeric and not an underscore.
pub open spec fn shortcode_end(s: Seq<char>, j: int) -> int
    decreases s.len() - j when 0 <= j <= s.len()
{
    if j >= s.len() {
        s.len() as int
    } else if char_alphanumeric(s[j]) || s[j] == '_' {
        shortcode_end(s, j + 1)
    } else {
        j
    }
}

pub proof fn lemma_shortcode_end_bounds(s: Seq<char>, j: int)
    requires
        0 <= j <= s.len(),
    ensures
        j <= shortcode_end(s, j) <= s.len(),
    decreases s.len() - j,
{
    if j < s.len() && (char_alphanumeric(s[j]) || s[j] == '_') {
        lemma_shortcode_end_bounds(s, j + 1);
    }
}

/// The text with emoji shortcodes substituted, from index `i` on: at each
/// `:` the following run of shortcode characters is looked up when it ends
/// at another `:` or at the end of input; a known code becomes its emoji
/// and the scan continues past the closing `:`, anything else keeps the
/// `:` and goes on.
pub open spec fn spec_fmt_emoji(s: Seq<char>, i: int) -> Seq<char>
    decreases s.len() - i when 0 <= i <= s.len() via spec_fmt_emoji_decreases
{
    if i >= s.len() {
        Seq::empty()
    } else if s[i] == ':' {
        let j = shortcode_end(s, i + 1);
        if j < s.len() && s[j] != ':' {
            seq![':'] + spec_fmt_emoji(s, i + 1)
        } else {
            match emoji_of(s.subrange(i + 1, j)) {
                Some(e) => e + spec_fmt_emoji(
                    s,
                    if j < s.len() {
                        j + 1
                    } else {
                        s.len() as int
                    },
                ),
                None => seq![':'] + spec_fmt_emoji(s, i + 1),
            }
        }
    } else {
        seq![s[i]] + spec_fmt_emoji(s, i + 1)
    }
}

#[via_fn]
proof fn spec_fmt_emoji_decreases(s: Seq<char>, i: int) {
    if 0 <= i < s.len() {
        lemma_shortcode_end_bounds(s, i + 1);
    }
}

/// Substitutes emoji shortcodes in the text, as [`spec_fmt_emoji`]
/// describes.
pub fn fmt_emoji(text: &str) -> (r: String)
    ensures
        r@ == spec_fmt_emoji(text@, 0),
{
    let chars = chars_vec(text);
    let out = fmt_emoji_rec(&chars, 0);
    string_from_chars(out.as_slice())
}

fn fmt_emoji_rec(chars: &Vec<char>, i: usize) -> (r: Vec<char>)
    requires
        i <= chars@.len(),
    ensures
        r@ == spec_fmt_emoji(chars@, i as int),
    decreases chars@.len() - i,
{
    if i >= chars.len() {
        Vec::new()
    } else if chars[i] == ':' {
        let j = find_shortcode_end(chars, i + 1);
        proof {
            lemma_shortcode_end_bounds(chars@, i + 1);
        }
        if j < chars.len() && chars[j] != ':' {
            let mut out: Vec<char> = Vec::new();
            out.push(':');
            let mut rest = fmt_emoji_rec(chars, i + 1);
            out.append(&mut rest);
            proof {
                assert(out@ =~= spec_fmt_emoji(chars@, i as int));
            }
            out
        } else {
            let code = chars_range(chars, i + 1, j);
            match emoji_by_shortcode(code.as_str()) {
                Some(e) => {
                    let mut out = chars_vec(e.as_str());
                    let next = if j < chars.len() {
                        j + 1
                    } else {
                        chars.len()
                    };
                    let mut rest = fmt_emoji_rec(chars, next);
                    out.append(&mut rest);
                    proof {
                        assert(out@ =~= spec_fmt_emoji(chars@, i as int));
                    }
                    out
                },
                None => {
                    let mut out: Vec<char> = Vec::new();
                    out.push(':');
                    let mut rest = fmt_emoji_rec(chars, i + 1);
                    out.append(&mut rest);
                    proof {
                        assert(out@ =~= spec_fmt_emoji(chars@, i as int));
                    }
                    out
                },
            }
        }
    } else {
        let mut out: Vec<char> = Vec::new();
        out.push(chars[i]);
        let mut rest = fmt_emoji_rec(chars, i + 1);
        out.append(&mut rest);
        proof {
            assert(out@ =~= spec_fmt_emoji(chars@, i as int));
        }
        out
    }
}

/// The first index at or after `j` that cannot continue a shortcode.
fn find_shortcode_end(chars: &Vec<char>, j: usize) -> (r: usize)
    requires
        j <= chars@.len(),
    ensures
        r == shortcode_end(chars@, j as int),
{
    let mut k = j;
    while k < chars.len()
        invariant
            j <= k <= chars@.len(),
            shortcode_end(chars@, j as int) == shortcode_end(chars@, k as int),
        decreases chars@.len() - k,
    {
        if !(is_alphanumeric_char(chars[k]) || chars[k] == '_') {
            return k;
        }
        k += 1;
    }
    k
}

/// The string holding the characters from `from` up to `to`.
fn chars_range(chars: &Vec<char>, from: usize, to: usize) -> (r: String)
    requires
        from <= to <= chars@.len(),
    ensures
        r@ == chars@.subrange(from as int, to as int),
{
    let mut out: Vec<char> = Vec::new();
    let mut k = from;
    while k < to
        invariant
            from <= k <= to <= chars@.len(),
            out@ == chars@.subrange(from as int, k as int),
        decreases to - k,
    {
        out.push(chars[k]);
        k += 1;
        proof {
            assert(out@ =~= chars@.subrange(from as int, k as int));
        }
    }
    string_from_chars(out.as_slice())
}

/// A tutorial page's metadata, from its front matter or its first heading.
pub struct Metadata {
    pub title: Option<String>,
    pub description: Option<String>,
    pub icon: Option<String>,
    pub order: Option<usize>,
}

/// The first index at or after `from` where `---` begins, or the length
/// when there is none.
pub open spec fn find_dashes(s: Seq<char>, from: int) -> int
    decreases s.len() - from when 0 <= from <= s.len()
{
    if from + 3 > s.len() {
        s.len() as int
    } else if s[from] == '-' && s[from + 1] == '-' && s[from + 2] == '-' {
        from
    } else {
        find_dashes(s, from + 1)
    }
}

pub proof fn lemma_find_dashes_bounds(s: Seq<char>, from: int)
    requires
        0 <= from <= s.len(),
    ensures
        from <= find_dashes(s, from) <= s.len(),
        find_dashes(s, from) < s.len() ==> find_dashes(s, from) + 3 <= s.len(),
    decreases s.len() - from,
{
    if from + 3 <= s.len() && !(s[from] == '-' && s[from + 1] == '-' && s[from + 2] == '-') {
        lemma_find_dashes_bounds(s, from + 1);
    }
}

/// The front-matter split of a document: when the document, after leading
/// whitespace, starts with `---`, the text up to the next `---` is the
/// metadata block and what follows that marker is the body; otherwise
/// there is no metadata block. Without a closing marker the rest after the
/// opening marker is the body.
pub open spec fn spec_split_metadata(s: Seq<char>) -> (Option<Seq<char>>, Seq<char>) {
    let t = crate::comment::skip_ws(s, 0);
    if t + 3 <= s.len() && s[t] == '-' && s[t + 1] == '-' && s[t + 2] == '-' {
        let rest_start = t + 3;
        let close = find_dashes(s, rest_start);
        if close < s.len() {
            (Some(s.subrange(rest_start, close)), s.subrange(close + 3, s.len() as int))
        } else {
            (None, s.subrange(rest_start, s.len() as int))
        }
    } else {
        (None, s)
    }
}

/// Splits a document's front matter from its body, as
/// [`spec_split_metadata`] describes.
pub fn split_markdown_metadata(text: &str) -> (r: (Option<String>, String))
    ensures
        ({
            let (m, body) = spec_split_metadata(text@);
            (match (r.0, m) {
                (Some(a), Some(b)) => a@ == b,
                (None, None) => true,
                _ => false,
            }) && r.1@ == body
        }),
{
    let chars = chars_vec(text);
    let n = chars.len();
    let t = skip_ws_vec(&chars, 0);
    proof {
        crate::comment::lemma_skip_ws_bounds(chars@, 0);
    }
    if n >= 3 && t <= n - 3 && chars[t] == '-' && chars[t + 1] == '-' && chars[t + 2] == '-' {
        let rest_start = t + 3;
        let close = find_dashes_vec(&chars, rest_start);
        proof {
            lemma_find_dashes_bounds(chars@, rest_start as int);
        }
        if close < chars.len() {
            proof {
                assert(close + 3 <= chars@.len());
            }
            let meta = chars_range(&chars, rest_start, close);
            let body = chars_range(&chars, close + 3, chars.len());
            (Some(meta), body)
        } else {
            let body = chars_range(&chars, rest_start, chars.len());
            (None, body)
        }
    } else {
        (None, text.to_owned())
    }
}

/// The first index at or after `from` that is not whitespace.
fn skip_ws_vec(chars: &Vec<char>, from: usize) -> (r: usize)
    requires
        from <= chars@.len(),
    ensures
        r == crate::comment::skip_ws(chars@, from as int),
{
    let mut j = from;
    while j < chars.len()
        invariant
            from <= j <= chars@.len(),
            crate::comment::skip_ws(chars@, from as int) == crate::comment::skip_ws(
                chars@,
                j as int,
            ),
        decreases chars@.len() - j,
    {
        if !crate::strings::is_whitespace_char(chars[j]) {
            return j;
        }
        j += 1;
    }
    j
}

/// The first index at or after `from` where `---` begins.
fn find_dashes_vec(chars: &Vec<char>, from: usize) -> (r: usize)
    requires
        from <= chars@.len(),
    ensures
        r == find_dashes(chars@, from as int),
{
    let n = chars.len();
    let mut j = from;
    while n >= 3 && j <= n - 3
        invariant
            n == chars@.len(),
            from <= j <= chars@.len(),
            find_dashes(chars@, from as int) == find_dashes(chars@, j as int),
        decreases chars@.len() - j,
    {
        if chars[j] == '-' && chars[j + 1] == '-' && chars[j + 2] == '-' {
            return j;
        }
        j += 1;
    }
    chars.len()
}

/// One event of a markdown stream, as far as title extraction reads it:
/// a heading opens, text flows, a heading closes, anything else passes.
pub enum MdEvent {
    HeadingStart,
    HeadingEnd,
    Text(String),
    Other,
}

/// The text collected from the events after an opening heading, up to the
/// heading's end.
pub open spec fn spec_heading_text(events: Seq<MdEvent>, i: int) -> Seq<char>
    decreases events.len() - i when 0 <= i <= events.len()
{
    if i >= events.len() {
        Seq::empty()
    } else {
        match events[i] {
            MdEvent::HeadingEnd => Seq::empty(),
            MdEvent::Text(t) => t@ + spec_heading_text(events, i + 1),
            _ => spec_heading_text(events, i + 1),
        }
    }
}

/// The document title read from a markdown stream: the text of the first
/// heading, when the stream opens with one; otherwise nothing.
pub open spec fn spec_title_from_events(events: Seq<MdEvent>) -> Option<Seq<char>> {
    if events.len() > 0 && events[0] is HeadingStart {
        if spec_heading_text(events, 1).len() == 0 {
            None
        } else {
            Some(spec_heading_text(events, 1))
        }
    } else {
        None
    }
}

/// The document title read from a markdown stream, as
/// [`spec_title_from_events`] describes.
pub fn title_from_events(events: &Vec<MdEvent>) -> (r: Option<String>)
    ensures
        (match (r, spec_title_from_events(events@)) {
            (Some(a), Some(b)) => a@ == b,
            (None, None) => true,
            _ => false,
        }),
{
    if events.len() == 0 {
        return None;
    }
    let starts = matches!(&events[0], MdEvent::HeadingStart);
    if !starts {
        return None;
    }
    let mut out = String::new();
    let mut i: usize = 1;
    loop
        invariant_except_break
            1 <= i <= events@.len(),
            out@ + spec_heading_text(events@, i as int) == spec_heading_text(events@, 1),
        ensures
            out@ == spec_heading_text(events@, 1),
        decreases events@.len() - i,
    {
        if i >= events.len() {
            break;
        }
        match &events[i] {
            MdEvent::HeadingEnd => {
                proof {
                    assert(spec_heading_text(events@, i as int) =~= Seq::<char>::empty());
                }
                break;
            },
            MdEvent::Text(t) => {
                out.append(t.as_str());
            },
            _ => {},
        }
        i += 1;
    }
    if out.as_str().is_empty() {
        None
    } else {
        Some(out)
    }
}

/// The resolved metadata of a tutorial page: the front matter's own title
/// wins; otherwise the first heading's text, then the default title, fill
/// it in. Without any front matter, a metadata record exists only when a
/// title was found somewhere.
pub open spec fn spec_resolve_title(
    meta_title: Option<Seq<char>>,
    heading: Option<Seq<char>>,
    default_title: Option<Seq<char>>,
) -> Option<Seq<char>> {
    match meta_title {
        Some(t) => Some(t),
        None => match heading {
            Some(h) => Some(h),
            None => default_title,
        },
    }
}

/// Combines a parsed front matter, the first heading's text and a default
/// into the page's metadata, as [`spec_resolve_title`] describes for the
/// title; the description, icon and order come from the front matter
/// alone. Without front matter and without any title there is no metadata.
pub fn resolve_metadata(
    meta: Option<Metadata>,
    heading_title: Option<String>,
    default_title: Option<String>,
) -> (r: Option<Metadata>)
    ensures
        match meta {
            Some(m) => r is Some && ({
                let t = spec_resolve_title(
                    match m.title {
                        Some(ref t) => Some(t@),
                        None => None,
                    },
                    match heading_title {
                        Some(ref h) => Some(h@),
                        None => None,
                    },
                    match default_title {
                        Some(ref d) => Some(d@),
                        None => None,
                    },
                );
                (match (r->0.title, t) {
                    (Some(ref a), Some(b)) => a@ == b,
                    (None, None) => true,
                    _ => false,
                }) && r->0.description == m.description && r->0.icon == m.icon && r->0.order
                    == m.order
            }),
            None => match (heading_title, default_title) {
                (None, None) => r is None,
                _ => r is Some && ({
                    let t = spec_resolve_title(
                        None,
                        match heading_title {
                            Some(ref h) => Some(h@),
                            None => None,
                        },
                        match default_title {
                            Some(ref d) => Some(d@),
                            None => None,
                        },
                    );
                    (match (r->0.title, t) {
                        (Some(ref a), Some(b)) => a@ == b,
                        (None, None) => true,
                        _ => false,
                    }) && r->0.description is None && r->0.icon is None && r->0.order is None
                }),
            },
        },
{
    match meta {
        Some(m) => {
            let title = match m.title {
                Some(t) => Some(t),
                None => match heading_title {
                    Some(h) => Some(h),
                    None => default_title,
                },
            };
            Some(Metadata { title, description: m.description, icon: m.icon, order: m.order })
        },
        None => {
            let title = match heading_title {
                Some(h) => Some(h),
                None => match default_title {
                    Some(d) => Some(d),
                    None => {
                        return None;
                    },
                },
            };
            Some(Metadata { title, description: None, icon: None, order: None })
        },
    }
}

/// The rewritten destination of a markdown link or image: a site-absolute
/// inline link loses its `.md` extension when tutorial links are being
/// fixed, and any site-absolute destination is joined under the configured
/// output base; other destinations pass through unchanged.
pub open spec fn spec_rewrite_link_dest(
    dest: Seq<char>,
    is_inline: bool,
    fix_md: bool,
    config: Config,
) -> Seq<char> {
    if dest.len() > 0 && dest[0] == '/' {
        let parsed = crate::url_path::clean_segs(crate::url_path::split_slash(dest, 0));
        let fixed = if is_inline && fix_md {
            crate::url_path::spec_remove_extension(parsed, ".md"@)
        } else {
            parsed
        };
        crate::autolink::url_display(crate::linker::spec_base(config.output_url) + fixed)
    } else {
        dest
    }
}

/// Rewrites a link destination, as [`spec_rewrite_link_dest`] describes.
pub fn rewrite_link_dest(dest: &str, is_inline: bool, fix_md: bool, config: &Config) -> (r:
    String)
    ensures
        r@ == spec_rewrite_link_dest(dest@, is_inline, fix_md, *config),
{
    let n = dest.unicode_len();
    if n > 0 && dest.get_char(0) == '/' {
        let parsed = match UrlPath::parse(dest) {
            Ok(p) => p,
            Err(_) => UrlPath::new(),
        };
        let fixed = if is_inline && fix_md {
            proof {
                reveal_strlit(".md");
            }
            parsed.remove_extension(".md")
        } else {
            parsed
        };
        let abs = fixed.to_absolute(&config.output_url);
        abs.to_encoded_string()
    } else {
        dest.to_owned()
    }
}


/// What `str::to_lowercase` yields: the lowercase mapping depends on the
/// characters alone.
pub uninterp spec fn lower_of(s: Seq<char>) -> Seq<char>;

/// Relies on str::to_lowercase: the result depends on the characters alone.
#[verifier::external_body]
fn lowercase(s: &str) -> (r: String)
    ensures
        r@ == lower_of(s@),
{
    s.to_lowercase()
}

/// The text reduced to its anchor characters: alphanumerics and whitespace
/// survive, punctuation is dropped.
pub open spec fn filter_anchor_chars(s: Seq<char>) -> Seq<char>
    decreases s.len(),
{
    if s.len() == 0 {
        Seq::empty()
    } else {
        filter_anchor_chars(s.drop_last()) + (if char_alphanumeric(s.last()) || char_whitespace(
            s.last(),
        ) {
            seq![s.last()]
        } else {
            Seq::empty()
        })
    }
}

/// The heading text accumulated from its events: each text's anchor
/// characters, lowercased, the pieces separated by single spaces once
/// something has accumulated.
pub open spec fn spec_anchor_buf(texts: Seq<Seq<char>>, i: int, acc: Seq<char>) -> Seq<char>
    decreases texts.len() - i when 0 <= i <= texts.len()
{
    if i >= texts.len() {
        acc
    } else {
        let sep = if acc.len() > 0 {
            acc + seq![' ']
        } else {
            acc
        };
        spec_anchor_buf(texts, i + 1, sep + lower_of(filter_anchor_chars(texts[i])))
    }
}

/// The first index at or after `pos` that is not whitespace.
pub open spec fn word_start_ws(s: Seq<char>, pos: int) -> int
    decreases s.len() - pos when 0 <= pos <= s.len()
{
    if pos >= s.len() {
        s.len() as int
    } else if char_whitespace(s[pos]) {
        word_start_ws(s, pos + 1)
    } else {
        pos
    }
}

/// The first index at or after `pos` that is whitespace.
pub open spec fn word_end_ws(s: Seq<char>, pos: int) -> int
    decreases s.len() - pos when 0 <= pos <= s.len()
{
    if pos >= s.len() {
        s.len() as int
    } else if !char_whitespace(s[pos]) {
        word_end_ws(s, pos + 1)
    } else {
        pos
    }
}

pub proof fn lemma_word_ws_bounds(s: Seq<char>, pos: int)
    requires
        0 <= pos <= s.len(),
    ensures
        pos <= word_start_ws(s, pos) <= s.len(),
        pos <= word_end_ws(s, pos) <= s.len(),
        word_start_ws(s, pos) < s.len() ==> !char_whitespace(s[word_start_ws(s, pos)]),
    decreases s.len() - pos,
{
    if pos < s.len() {
        lemma_word_ws_bounds(s, pos + 1);
    }
}

/// The whitespace-separated words of the text from `pos` on.
pub open spec fn spec_ws_words(s: Seq<char>, pos: int) -> Seq<Seq<char>>
    decreases s.len() - pos when 0 <= pos <= s.len() via spec_ws_words_decreases
{
    let st = word_start_ws(s, pos);
    if st < s.len() {
        let en = word_end_ws(s, st);
        seq![s.subrange(st, en)] + spec_ws_words(s, en)
    } else {
        Seq::empty()
    }
}

#[via_fn]
proof fn spec_ws_words_decreases(s: Seq<char>, pos: int) {
    lemma_word_ws_bounds(s, pos);
    let st = word_start_ws(s, pos);
    if st < s.len() {
        assert(!char_whitespace(s[st]));
        lemma_word_ws_bounds(s, st + 1);
        assert(word_end_ws(s, st) == word_end_ws(s, st + 1));
    }
}

/// The anchor of a heading: its texts' anchor characters, lowercased, the
/// words joined by single hyphens. Pages link to headings through it.
pub open spec fn spec_heading_anchor(texts: Seq<Seq<char>>) -> Seq<char> {
    crate::html::join_char(spec_ws_words(spec_anchor_buf(texts, 0, Seq::empty()), 0), '-')
}

/// The anchor of a heading, as [`spec_heading_anchor`] describes.
pub fn heading_anchor(texts: &Vec<String>) -> (r: String)
    ensures
        r@ == spec_heading_anchor(Seq::new(texts@.len(), |i: int| texts@[i]@)),
{
    let ghost tv = Seq::new(texts@.len(), |i: int| texts@[i]@);
    let mut buf: Vec<char> = Vec::new();
    let mut i: usize = 0;
    while i < texts.len()
        invariant
            i <= texts@.len(),
            tv == Seq::new(texts@.len(), |k: int| texts@[k]@),
            spec_anchor_buf(tv, i as int, buf@) == spec_anchor_buf(tv, 0, Seq::empty()),
        decreases texts@.len() - i,
    {
        let ghost pre = buf@;
        if buf.len() > 0 {
            buf.push(' ');
        }
        let chars = chars_vec(texts[i].as_str());
        let mut filtered: Vec<char> = Vec::new();
        let mut k: usize = 0;
        proof {
            assert(filtered@ =~= filter_anchor_chars(chars@.take(0)));
        }
        while k < chars.len()
            invariant
                k <= chars@.len(),
                filtered@ == filter_anchor_chars(chars@.take(k as int)),
            decreases chars@.len() - k,
        {
            let c = chars[k];
            if is_alphanumeric_char(c) || crate::strings::is_whitespace_char(c) {
                filtered.push(c);
            }
            k += 1;
            proof {
                assert(chars@.take(k as int).drop_last() =~= chars@.take(k - 1));
                assert(filtered@ =~= filter_anchor_chars(chars@.take(k as int)));
            }
        }
        proof {
            assert(chars@.take(chars@.len() as int) =~= chars@);
        }
        let piece = lowercase(string_from_chars(filtered.as_slice()).as_str());
        let mut piece_chars = chars_vec(piece.as_str());
        buf.append(&mut piece_chars);
        i += 1;
        proof {
            assert(tv[i - 1] == texts@[i - 1]@);
            if pre.len() > 0 {
                assert(buf@ =~= pre + seq![' '] + lower_of(filter_anchor_chars(tv[i - 1])));
            } else {
                assert(buf@ =~= pre + lower_of(filter_anchor_chars(tv[i - 1])));
            }
        }
    }
    proof {
        assert(buf@ == spec_anchor_buf(tv, 0, Seq::empty()));
    }
    let words = split_ws_words(&buf);
    let mut out = String::new();
    let ghost all_words = spec_ws_words(buf@, 0);
    let mut w: usize = 0;
    proof {
        assert(crate::url_path::segs_view(words@).take(0) =~= Seq::<Seq<char>>::empty());
    }
    while w < words.len()
        invariant
            w <= words@.len(),
            crate::url_path::segs_view(words@) == all_words,
            out@ == crate::html::join_char(all_words.take(w as int), '-'),
        decreases words@.len() - w,
    {
        if w > 0 {
            push_char(&mut out, '-');
        }
        out.append(words[w].as_str());
        w += 1;
        proof {
            assert(all_words.take(w as int).drop_last() =~= all_words.take(w - 1));
            crate::html::lemma_join_char_snoc(all_words.take(w - 1), all_words[w - 1], '-');
            assert(all_words.take(w as int) =~= all_words.take(w - 1).push(all_words[w - 1]));
            assert(all_words[w - 1] == crate::url_path::segs_view(words@)[w - 1]);
            assert(out@ =~= crate::html::join_char(all_words.take(w as int), '-'));
        }
    }
    proof {
        assert(all_words.take(all_words.len() as int) =~= all_words);
    }
    out
}

/// The whitespace-separated words of the characters.
fn split_ws_words(chars: &Vec<char>) -> (r: Vec<String>)
    ensures
        crate::url_path::segs_view(r@) == spec_ws_words(chars@, 0),
{
    let mut out: Vec<String> = Vec::new();
    let mut pos: usize = 0;
    proof {
        assert(crate::url_path::segs_view(out@) + spec_ws_words(chars@, 0) =~= spec_ws_words(
            chars@,
            0,
        ));
    }
    loop
        invariant_except_break
            pos <= chars@.len(),
            spec_ws_words(chars@, 0) == crate::url_path::segs_view(out@) + spec_ws_words(
                chars@,
                pos as int,
            ),
        ensures
            crate::url_path::segs_view(out@) == spec_ws_words(chars@, 0),
        decreases chars@.len() - pos,
    {
        let st = find_word_start_ws(chars, pos);
        proof {
            lemma_word_ws_bounds(chars@, pos as int);
        }
        if st >= chars.len() {
            proof {
                assert(spec_ws_words(chars@, pos as int) =~= Seq::<Seq<char>>::empty());
                assert(crate::url_path::segs_view(out@) =~= spec_ws_words(chars@, 0));
            }
            break;
        }
        let en = find_word_end_ws(chars, st);
        proof {
            lemma_word_ws_bounds(chars@, st as int);
        }
        let word = chars_range(chars, st, en);
        let ghost preview = crate::url_path::segs_view(out@);
        out.push(word);
        proof {
            assert(crate::url_path::segs_view(out@) =~= preview.push(
                chars@.subrange(st as int, en as int),
            ));
            assert(spec_ws_words(chars@, pos as int) =~= seq![
                chars@.subrange(st as int, en as int),
            ] + spec_ws_words(chars@, en as int));
            assert(spec_ws_words(chars@, 0) =~= crate::url_path::segs_view(out@)
                + spec_ws_words(chars@, en as int));
        }
        pos = en;
        proof {
            lemma_word_ws_bounds(chars@, st as int);
            assert(pos > st || pos == chars@.len());
        }
    }
    out
}

/// The first index at or after `pos` that is not whitespace.
fn find_word_start_ws(chars: &Vec<char>, pos: usize) -> (r: usize)
    requires
        pos <= chars@.len(),
    ensures
        r == word_start_ws(chars@, pos as int),
{
    let mut j = pos;
    while j < chars.len()
        invariant
            pos <= j <= chars@.len(),
            word_start_ws(chars@, pos as int) == word_start_ws(chars@, j as int),
        decreases chars@.len() - j,
    {
        if !crate::strings::is_whitespace_char(chars[j]) {
            return j;
        }
        j += 1;
    }
    j
}

/// The first index at or after `pos` that is whitespace.
fn find_word_end_ws(chars: &Vec<char>, pos: usize) -> (r: usize)
    requires
        pos <= chars@.len(),
    ensures
        r == word_end_ws(chars@, pos as int),
{
    let mut j = pos;
    while j < chars.len()
        invariant
            pos <= j <= chars@.len(),
            word_end_ws(chars@, pos as int) == word_end_ws(chars@, j as int),
        decreases chars@.len() - j,
    {
        if crate::strings::is_whitespace_char(chars[j]) {
            return j;
        }
        j += 1;
    }
    j
}

} // verus!
