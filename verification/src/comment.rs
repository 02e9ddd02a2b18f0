//! The structured doc-comment parser: a small lexer and a command-based
//! grammar over a comment's body.
//!
//! The input is stripped of its block-comment markers. The parser then
//! repeatedly reads a command — an explicit `@tag[attr=val,...]`, or an
//! implicit description when no `@` leads — and the command's value, which
//! runs until the next `@` or the end of input. Line breaks compress the
//! next line's leading marker and indentation, up to the first line's
//! observed indentation width, so deeper indentation survives for code
//! blocks. Parsing is total: any input yields a document, never an error.

use vstd::prelude::*;

use crate::strings::char_whitespace;
use crate::strings::chars_vec;
use crate::strings::is_whitespace_char;
use crate::strings::string_from_chars;

verus! {

/// Where a lexer scan stops.
#[derive(PartialEq, Eq, Structural, Clone, Copy, Debug)]
pub enum Stop {
    /// At whitespace.
    Whitespace,
    /// At whitespace or `[`: the end of a command name.
    CommandEnd,
    /// At `=`, `]` or `,`: the end of an attribute key.
    AttrKey,
    /// At `]` or `,`: the end of an attribute value.
    AttrValue,
    /// At `@`: the end of a command's value.
    At,
}

/// Whether the scan stops at this character.
pub open spec fn stops(stop: Stop, c: char) -> bool {
    match stop {
        Stop::Whitespace => char_whitespace(c),
        Stop::CommandEnd => char_whitespace(c) || c == '[',
        Stop::AttrKey => c == '=' || c == ']' || c == ',',
        Stop::AttrValue => c == ']' || c == ',',
        Stop::At => c == '@',
    }
}

fn stops_exec(stop: Stop, c: char) -> (r: bool)
    ensures
        r == stops(stop, c),
{
    match stop {
        Stop::Whitespace => is_whitespace_char(c),
        Stop::CommandEnd => is_whitespace_char(c) || c == '[',
        Stop::AttrKey => c == '=' || c == ']' || c == ',',
        Stop::AttrValue => c == ']' || c == ',',
        Stop::At => c == '@',
    }
}

/// The first index at or after `pos` whose character is not whitespace.
pub open spec fn skip_ws(s: Seq<char>, pos: int) -> int
    decreases s.len() - pos when 0 <= pos <= s.len()
{
    if pos >= s.len() {
        s.len() as int
    } else if char_whitespace(s[pos]) {
        skip_ws(s, pos + 1)
    } else {
        pos
    }
}

pub proof fn lemma_skip_ws_bounds(s: Seq<char>, pos: int)
    requires
        0 <= pos <= s.len(),
    ensures
        pos <= skip_ws(s, pos) <= s.len(),
        skip_ws(s, pos) < s.len() ==> !char_whitespace(s[skip_ws(s, pos)]),
        pos < s.len() && char_whitespace(s[pos]) ==> skip_ws(s, pos) >= pos + 1,
    decreases s.len() - pos,
{
    if pos < s.len() && char_whitespace(s[pos]) {
        lemma_skip_ws_bounds(s, pos + 1);
    }
}

/// The first index at or after `pos` whose character is not whitespace or
/// is a line break.
pub open spec fn skip_line_ws(s: Seq<char>, pos: int) -> int
    decreases s.len() - pos when 0 <= pos <= s.len()
{
    if pos >= s.len() {
        s.len() as int
    } else if char_whitespace(s[pos]) && s[pos] != '\n' {
        skip_line_ws(s, pos + 1)
    } else {
        pos
    }
}

pub proof fn lemma_skip_line_ws_bounds(s: Seq<char>, pos: int)
    requires
        0 <= pos <= s.len(),
    ensures
        pos <= skip_line_ws(s, pos) <= s.len(),
    decreases s.len() - pos,
{
    if pos < s.len() && char_whitespace(s[pos]) && s[pos] != '\n' {
        lemma_skip_line_ws_bounds(s, pos + 1);
    }
}

/// As [`skip_line_ws`], but over at most `max` characters.
pub open spec fn skip_line_ws_bounded(s: Seq<char>, pos: int, max: int) -> int
    decreases s.len() - pos when 0 <= pos <= s.len()
{
    if pos >= s.len() || max <= 0 {
        pos
    } else if char_whitespace(s[pos]) && s[pos] != '\n' {
        skip_line_ws_bounded(s, pos + 1, max - 1)
    } else {
        pos
    }
}

pub proof fn lemma_skip_line_ws_bounded_bounds(s: Seq<char>, pos: int, max: int)
    requires
        0 <= pos <= s.len(),
    ensures
        pos <= skip_line_ws_bounded(s, pos, max) <= s.len(),
    decreases s.len() - pos,
{
    if pos < s.len() && max > 0 && char_whitespace(s[pos]) && s[pos] != '\n' {
        lemma_skip_line_ws_bounded_bounds(s, pos + 1, max - 1);
    }
}

/// The first index at or after `pos` whose character is not whitespace and
/// not a leading `*`.
pub open spec fn skip_ws_star(s: Seq<char>, pos: int) -> int
    decreases s.len() - pos when 0 <= pos <= s.len()
{
    if pos >= s.len() {
        s.len() as int
    } else if char_whitespace(s[pos]) || s[pos] == '*' {
        skip_ws_star(s, pos + 1)
    } else {
        pos
    }
}

pub proof fn lemma_skip_ws_star_bounds(s: Seq<char>, pos: int)
    requires
        0 <= pos <= s.len(),
    ensures
        pos <= skip_ws_star(s, pos) <= s.len(),
        skip_ws_star(s, pos) < s.len() ==> !char_whitespace(s[skip_ws_star(s, pos)])
            && s[skip_ws_star(s, pos)] != '*',
    decreases s.len() - pos,
{
    if pos < s.len() && (char_whitespace(s[pos]) || s[pos] == '*') {
        lemma_skip_ws_star_bounds(s, pos + 1);
    }
}

/// Consumes a line break's surroundings: all whitespace, then a leading
/// `*` if the next line starts with one, then that line's indentation —
/// all of it while the first line's width is still being observed, at most
/// `max` characters once it is known. Yields the next position and the
/// observed indentation width.
pub open spec fn skip_line(s: Seq<char>, pos: int, indent: Option<int>) -> (int, int)
    recommends
        0 <= pos < s.len(),
{
    let p1 = skip_ws(s, pos + 1);
    if p1 < s.len() && s[p1] == '*' {
        match indent {
            None => {
                let p3 = skip_line_ws(s, p1 + 1);
                (p3, p3 - (p1 + 1))
            },
            Some(m) => (skip_line_ws_bounded(s, p1 + 1, m), 0),
        }
    } else {
        (p1, 0)
    }
}

pub proof fn lemma_skip_line_bounds(s: Seq<char>, pos: int, indent: Option<int>)
    requires
        0 <= pos < s.len(),
    ensures
        pos + 1 <= skip_line(s, pos, indent).0 <= s.len(),
{
    lemma_skip_ws_bounds(s, pos + 1);
    let p1 = skip_ws(s, pos + 1);
    if p1 < s.len() && s[p1] == '*' {
        lemma_skip_line_ws_bounds(s, p1 + 1);
        lemma_skip_line_ws_bounded_bounds(s, p1 + 1, match indent {
            Some(m) => m,
            None => 0,
        });
    }
}

/// The text consumed up to the stop set, with line breaks compressed: each
/// `\n` swallows the next line's whitespace, leading `*` and indentation up
/// to the first line's observed width, and comes out as a single `\n`.
/// Yields the consumed text, the next position and the indentation state.
pub open spec fn eat_until_at(s: Seq<char>, pos: int, stop: Stop, indent: Option<int>) -> (
    Seq<char>,
    int,
    Option<int>,
)
    decreases s.len() - pos when 0 <= pos <= s.len() via eat_until_at_decreases
{
    if pos >= s.len() {
        (Seq::empty(), pos, indent)
    } else if stops(stop, s[pos]) && s[pos] != '\n' {
        (Seq::empty(), pos, indent)
    } else if s[pos] == '\n' && !stops(stop, '\n') {
        let (p2, cnt) = skip_line(s, pos, indent);
        let ind2 = match indent {
            None => Some(cnt),
            Some(m) => Some(m),
        };
        let (rest, p3, ind3) = eat_until_at(s, p2, stop, ind2);
        (seq!['\n'] + rest, p3, ind3)
    } else if s[pos] == '\n' {
        (Seq::empty(), pos, indent)
    } else {
        let (rest, p3, ind3) = eat_until_at(s, pos + 1, stop, indent);
        (seq![s[pos]] + rest, p3, ind3)
    }
}

#[via_fn]
proof fn eat_until_at_decreases(s: Seq<char>, pos: int, stop: Stop, indent: Option<int>) {
    if 0 <= pos < s.len() && s[pos] == '\n' {
        lemma_skip_line_bounds(s, pos, indent);
    }
}

/// The consumed text and next position of a scan up to the stop set.
pub open spec fn eat_until(s: Seq<char>, pos: int, stop: Stop) -> (Seq<char>, int) {
    let (text, p, ind) = eat_until_at(s, pos, stop, None);
    (text, p)
}

pub proof fn lemma_eat_until_at_bounds(s: Seq<char>, pos: int, stop: Stop, indent: Option<int>)
    requires
        0 <= pos <= s.len(),
    ensures
        pos <= eat_until_at(s, pos, stop, indent).1 <= s.len(),
        eat_until_at(s, pos, stop, indent).0.len() == 0 <==> eat_until_at(
            s,
            pos,
            stop,
            indent,
        ).1 == pos,
        pos < s.len() && !(stops(stop, s[pos]) && s[pos] != '\n') && !(s[pos] == '\n' && stops(
            stop,
            '\n',
        )) ==> eat_until_at(s, pos, stop, indent).1 > pos,
    decreases s.len() - pos,
{
    if pos < s.len() {
        if stops(stop, s[pos]) && s[pos] != '\n' {
        } else if s[pos] == '\n' && !stops(stop, '\n') {
            lemma_skip_line_bounds(s, pos, indent);
            let (p2, cnt) = skip_line(s, pos, indent);
            let ind2 = match indent {
                None => Some(cnt),
                Some(m) => Some(m),
            };
            lemma_eat_until_at_bounds(s, p2, stop, ind2);
        } else if s[pos] == '\n' {
        } else {
            lemma_eat_until_at_bounds(s, pos + 1, stop, indent);
        }
    }
}

pub proof fn lemma_eat_until_bounds(s: Seq<char>, pos: int, stop: Stop)
    requires
        0 <= pos <= s.len(),
    ensures
        pos <= eat_until(s, pos, stop).1 <= s.len(),
        eat_until(s, pos, stop).0.len() == 0 <==> eat_until(s, pos, stop).1 == pos,
        pos < s.len() && !stops(stop, s[pos]) ==> eat_until(s, pos, stop).1 > pos,
{
    lemma_eat_until_at_bounds(s, pos, stop, None);
}

/// The text with leading and trailing whitespace removed.
pub open spec fn rskip_ws(s: Seq<char>, from: int) -> int
    decreases from when 0 <= from <= s.len()
{
    if from <= 0 {
        0
    } else if char_whitespace(s[from - 1]) {
        rskip_ws(s, from - 1)
    } else {
        from
    }
}

pub proof fn lemma_rskip_ws_bounds(s: Seq<char>, from: int)
    requires
        0 <= from <= s.len(),
    ensures
        0 <= rskip_ws(s, from) <= from,
        rskip_ws(s, from) > 0 ==> !char_whitespace(s[rskip_ws(s, from) - 1]),
    decreases from,
{
    if from > 0 && char_whitespace(s[from - 1]) {
        lemma_rskip_ws_bounds(s, from - 1);
    }
}

/// The text with leading and trailing whitespace removed.
pub open spec fn trim_spec(s: Seq<char>) -> Seq<char> {
    let b = rskip_ws(s, s.len() as int);
    if b == 0 {
        Seq::empty()
    } else {
        s.subrange(skip_ws(s, 0), b)
    }
}

/// The input with every trailing `*/` marker, then every leading `/*`
/// marker, removed.
pub open spec fn strip_end_markers(s: Seq<char>) -> Seq<char>
    decreases s.len(),
{
    if s.len() >= 2 && s[s.len() - 2] == '*' && s[s.len() - 1] == '/' {
        strip_end_markers(s.take(s.len() - 2))
    } else {
        s
    }
}

pub open spec fn strip_start_markers(s: Seq<char>) -> Seq<char>
    decreases s.len(),
{
    if s.len() >= 2 && s[0] == '/' && s[1] == '*' {
        strip_start_markers(s.skip(2))
    } else {
        s
    }
}

/// The lexer's input: the raw comment with its block markers stripped.
pub open spec fn lexer_input(raw: Seq<char>) -> Seq<char> {
    strip_start_markers(strip_end_markers(raw))
}

/// A lexer over a comment body: the stripped input and a scan position.
pub struct CommentLexer {
    chars: Vec<char>,
    pos: usize,
}

impl CommentLexer {
    /// The stripped input.
    pub closed spec fn input(&self) -> Seq<char> {
        self.chars@
    }

    /// The scan position.
    pub closed spec fn at(&self) -> int {
        self.pos as int
    }

    /// The position is within the input.
    pub closed spec fn wf(&self) -> bool {
        self.pos <= self.chars@.len()
    }

    /// A lexer over the comment with its block markers stripped.
    pub fn new(raw: &str) -> (r: CommentLexer)
        ensures
            r.wf(),
            r.input() == lexer_input(raw@),
            r.at() == 0,
    {
        let all = chars_vec(raw);
        let mut en = all.len();
        proof {
            assert(all@.take(all@.len() as int) =~= all@);
        }
        while en >= 2 && all[en - 2] == '*' && all[en - 1] == '/'
            invariant
                en <= all@.len(),
                strip_end_markers(all@) == strip_end_markers(all@.take(en as int)),
            decreases en,
        {
            proof {
                assert(all@.take(en as int).take(en - 2) =~= all@.take(en - 2));
            }
            en = en - 2;
        }
        let mut st: usize = 0;
        proof {
            assert(all@.take(en as int).skip(0) =~= all@.take(en as int));
        }
        while st < en && en - st >= 2 && all[st] == '/' && all[st + 1] == '*'
            invariant
                st <= en <= all@.len(),
                strip_start_markers(strip_end_markers(all@)) == strip_start_markers(
                    all@.take(en as int).skip(st as int),
                ),
            decreases en - st,
        {
            proof {
                assert(all@.take(en as int).skip(st as int).skip(2) =~= all@.take(
                    en as int,
                ).skip(st + 2));
            }
            st = st + 2;
        }
        let mut chars: Vec<char> = Vec::new();
        let mut k = st;
        while k < en
            invariant
                st <= k <= en <= all@.len(),
                chars@ == all@.subrange(st as int, k as int),
            decreases en - k,
        {
            chars.push(all[k]);
            k += 1;
            proof {
                assert(chars@ =~= all@.subrange(st as int, k as int));
            }
        }
        proof {
            assert(chars@ =~= all@.take(en as int).skip(st as int));
            assert(strip_start_markers(chars@) == chars@) by {
                if chars@.len() >= 2 && chars@[0] == '/' && chars@[1] == '*' {
                    assert(chars@[0] == all@[st as int]);
                    assert(chars@[1] == all@[st + 1]);
                    assert(false);
                }
            }
        }
        CommentLexer { chars, pos: 0 }
    }
}


/// An optional count, as the spec sees it.
pub open spec fn opt_int(o: Option<usize>) -> Option<int> {
    match o {
        Some(n) => Some(n as int),
        None => None,
    }
}

/// The first index at or after `pos` whose character is not whitespace.
fn skip_ws_exec(chars: &Vec<char>, pos: usize) -> (r: usize)
    requires
        pos <= chars@.len(),
    ensures
        r == skip_ws(chars@, pos as int),
{
    let mut j = pos;
    while j < chars.len()
        invariant
            pos <= j <= chars@.len(),
            skip_ws(chars@, pos as int) == skip_ws(chars@, j as int),
        decreases chars@.len() - j,
    {
        if !is_whitespace_char(chars[j]) {
            return j;
        }
        j += 1;
    }
    j
}

/// The first index at or after `pos` that is not whitespace or a `*`.
fn skip_ws_star_exec(chars: &Vec<char>, pos: usize) -> (r: usize)
    requires
        pos <= chars@.len(),
    ensures
        r == skip_ws_star(chars@, pos as int),
{
    let mut j = pos;
    while j < chars.len()
        invariant
            pos <= j <= chars@.len(),
            skip_ws_star(chars@, pos as int) == skip_ws_star(chars@, j as int),
        decreases chars@.len() - j,
    {
        if !is_whitespace_char(chars[j]) && chars[j] != '*' {
            return j;
        }
        j += 1;
    }
    j
}

/// The first index at or after `pos` not holding line whitespace.
fn skip_line_ws_exec(chars: &Vec<char>, pos: usize) -> (r: usize)
    requires
        pos <= chars@.len(),
    ensures
        r == skip_line_ws(chars@, pos as int),
{
    let mut j = pos;
    while j < chars.len()
        invariant
            pos <= j <= chars@.len(),
            skip_line_ws(chars@, pos as int) == skip_line_ws(chars@, j as int),
        decreases chars@.len() - j,
    {
        if !(is_whitespace_char(chars[j]) && chars[j] != '\n') {
            return j;
        }
        j += 1;
    }
    j
}

/// As [`skip_line_ws_exec`], over at most `max` characters.
fn skip_line_ws_bounded_exec(chars: &Vec<char>, pos: usize, max: usize) -> (r: usize)
    requires
        pos <= chars@.len(),
    ensures
        r == skip_line_ws_bounded(chars@, pos as int, max as int),
{
    let mut j = pos;
    let mut left = max;
    while j < chars.len() && left > 0
        invariant
            pos <= j <= chars@.len(),
            left <= max,
            skip_line_ws_bounded(chars@, pos as int, max as int) == skip_line_ws_bounded(
                chars@,
                j as int,
                left as int,
            ),
        decreases chars@.len() - j,
    {
        if !(is_whitespace_char(chars[j]) && chars[j] != '\n') {
            return j;
        }
        j += 1;
        left -= 1;
    }
    j
}

/// Consumes a line break's surroundings, as [`skip_line`] describes.
fn skip_line_exec(chars: &Vec<char>, pos: usize, indent: Option<usize>) -> (r: (usize, usize))
    requires
        pos < chars@.len(),
    ensures
        r.0 as int == skip_line(chars@, pos as int, opt_int(indent)).0,
        r.1 as int == skip_line(chars@, pos as int, opt_int(indent)).1,
{
    let n = chars.len();
    proof {
        assert(n == chars@.len());
    }
    let p1 = skip_ws_exec(chars, pos + 1);
    proof {
        lemma_skip_ws_bounds(chars@, pos + 1);
    }
    if p1 < chars.len() && chars[p1] == '*' {
        match indent {
            None => {
                let p3 = skip_line_ws_exec(chars, p1 + 1);
                proof {
                    lemma_skip_line_ws_bounds(chars@, p1 + 1);
                }
                (p3, p3 - (p1 + 1))
            },
            Some(m) => (skip_line_ws_bounded_exec(chars, p1 + 1, m), 0),
        }
    } else {
        (p1, 0)
    }
}

/// Consumes text up to the stop set, as [`eat_until_at`] describes.
fn eat_until_rec(chars: &Vec<char>, pos: usize, stop: Stop, indent: Option<usize>) -> (r: (
    Vec<char>,
    usize,
    Option<usize>,
))
    requires
        pos <= chars@.len(),
    ensures
        r.0@ == eat_until_at(chars@, pos as int, stop, opt_int(indent)).0,
        r.1 as int == eat_until_at(chars@, pos as int, stop, opt_int(indent)).1,
        opt_int(r.2) == eat_until_at(chars@, pos as int, stop, opt_int(indent)).2,
    decreases chars@.len() - pos,
{
    if pos >= chars.len() {
        (Vec::new(), pos, indent)
    } else {
        let c = chars[pos];
        let stopped = stops_exec(stop, c);
        if stopped && c != '\n' {
            proof {
                assert(Seq::<char>::empty() =~= eat_until_at(
                    chars@,
                    pos as int,
                    stop,
                    opt_int(indent),
                ).0);
            }
            (Vec::new(), pos, indent)
        } else if c == '\n' && !stops_exec(stop, '\n') {
            let (p2, cnt) = skip_line_exec(chars, pos, indent);
            proof {
                lemma_skip_line_bounds(chars@, pos as int, opt_int(indent));
            }
            let ind2 = match indent {
                None => Some(cnt),
                Some(m) => Some(m),
            };
            let (rest, p3, ind3) = eat_until_rec(chars, p2, stop, ind2);
            let mut out: Vec<char> = Vec::new();
            out.push('\n');
            let mut restv = rest;
            out.append(&mut restv);
            proof {
                assert(out@ =~= eat_until_at(chars@, pos as int, stop, opt_int(indent)).0);
            }
            (out, p3, ind3)
        } else if c == '\n' {
            proof {
                assert(Seq::<char>::empty() =~= eat_until_at(
                    chars@,
                    pos as int,
                    stop,
                    opt_int(indent),
                ).0);
            }
            (Vec::new(), pos, indent)
        } else {
            let (rest, p3, ind3) = eat_until_rec(chars, pos + 1, stop, indent);
            let mut out: Vec<char> = Vec::new();
            out.push(c);
            let mut restv = rest;
            out.append(&mut restv);
            proof {
                assert(out@ =~= eat_until_at(chars@, pos as int, stop, opt_int(indent)).0);
            }
            (out, p3, ind3)
        }
    }
}

/// The text with leading and trailing whitespace removed.
fn trim_chars(v: &Vec<char>) -> (r: String)
    ensures
        r@ == trim_spec(v@),
{
    let mut b = v.len();
    while b > 0 && is_whitespace_char(v[b - 1])
        invariant
            b <= v@.len(),
            rskip_ws(v@, v@.len() as int) == rskip_ws(v@, b as int),
        decreases b,
    {
        b -= 1;
    }
    proof {
        lemma_rskip_ws_bounds(v@, v@.len() as int);
        assert(rskip_ws(v@, b as int) == b as int);
    }
    if b == 0 {
        let r = String::new();
        proof {
            assert(r@ =~= trim_spec(v@));
        }
        r
    } else {
        let a = skip_ws_exec(v, 0);
        proof {
            lemma_skip_ws_bounds(v@, 0);
            assert(!char_whitespace(v@[b - 1]));
            assert(skip_ws(v@, 0) <= b as int) by {
                lemma_skip_ws_le(v@, 0, b - 1);
            }
        }
        let mut out: Vec<char> = Vec::new();
        let mut k = a;
        while k < b
            invariant
                a <= k <= b <= v@.len(),
                out@ == v@.subrange(a as int, k as int),
            decreases b - k,
        {
            out.push(v[k]);
            k += 1;
            proof {
                assert(out@ =~= v@.subrange(a as int, k as int));
            }
        }
        proof {
            assert(out@ =~= trim_spec(v@));
        }
        string_from_chars(out.as_slice())
    }
}

/// The whitespace skip never passes a non-whitespace character.
pub proof fn lemma_skip_ws_le(s: Seq<char>, pos: int, k: int)
    requires
        0 <= pos <= k < s.len(),
        !char_whitespace(s[k]),
    ensures
        skip_ws(s, pos) <= k,
    decreases k - pos,
{
    if pos < k && char_whitespace(s[pos]) {
        lemma_skip_ws_le(s, pos + 1, k);
    }
}

/// The model of a parsed command: its name and attribute pairs.
#[verifier::ext_equal]
pub struct CmdModel {
    pub cmd: Seq<char>,
    pub attrs: Seq<(Seq<char>, Option<Seq<char>>)>,
}

/// The views of a vector of attribute pairs.
pub open spec fn attrs_view(v: Seq<(String, Option<String>)>) -> Seq<
    (Seq<char>, Option<Seq<char>>),
> {
    Seq::new(
        v.len(),
        |i: int|
            (
                v[i].0@,
                match v[i].1 {
                    Some(s) => Some(s@),
                    None => None,
                },
            ),
    )
}

/// The first index at or after `i` of the attribute with the given key.
pub open spec fn find_attr(
    attrs: Seq<(Seq<char>, Option<Seq<char>>)>,
    key: Seq<char>,
    i: int,
) -> int
    decreases attrs.len() - i when 0 <= i <= attrs.len()
{
    if i >= attrs.len() {
        attrs.len() as int
    } else if attrs[i].0 == key {
        i
    } else {
        find_attr(attrs, key, i + 1)
    }
}

pub proof fn lemma_find_attr_bounds(
    attrs: Seq<(Seq<char>, Option<Seq<char>>)>,
    key: Seq<char>,
    i: int,
)
    requires
        0 <= i <= attrs.len(),
    ensures
        i <= find_attr(attrs, key, i) <= attrs.len(),
    decreases attrs.len() - i,
{
    if i < attrs.len() && attrs[i].0 != key {
        lemma_find_attr_bounds(attrs, key, i + 1);
    }
}

/// Stores an attribute: the value replaces an earlier one under the same
/// key, or the pair is appended.
pub open spec fn insert_attr(
    attrs: Seq<(Seq<char>, Option<Seq<char>>)>,
    key: Seq<char>,
    val: Option<Seq<char>>,
) -> Seq<(Seq<char>, Option<Seq<char>>)> {
    let i = find_attr(attrs, key, 0);
    if i < attrs.len() {
        attrs.update(i, (key, val))
    } else {
        attrs.push((key, val))
    }
}

/// Whether an attribute with the key is present.
pub open spec fn has_attr(attrs: Seq<(Seq<char>, Option<Seq<char>>)>, key: Seq<char>) -> bool {
    find_attr(attrs, key, 0) < attrs.len()
}

/// The attribute list read after a command's `[`: keys up to `=`, `]` or
/// `,`, optional values up to `]` or `,`, both trimmed; a missing key ends
/// the list.
pub open spec fn spec_attrs(
    s: Seq<char>,
    pos: int,
    acc: Seq<(Seq<char>, Option<Seq<char>>)>,
) -> (Seq<(Seq<char>, Option<Seq<char>>)>, int)
    decreases s.len() - pos when 0 <= pos <= s.len() via spec_attrs_decreases
{
    let (key, p1) = eat_until(s, pos, Stop::AttrKey);
    if key.len() == 0 {
        (acc, p1)
    } else {
        let k = trim_spec(key);
        if p1 < s.len() && s[p1] == '=' {
            let (v, p2) = eat_until(s, p1 + 1, Stop::AttrValue);
            let acc2 = insert_attr(acc, k, Some(trim_spec(v)));
            if p2 >= s.len() {
                (acc2, p2)
            } else if s[p2] == ',' {
                spec_attrs(s, p2 + 1, acc2)
            } else {
                (acc2, p2 + 1)
            }
        } else {
            let acc2 = insert_attr(acc, k, None);
            if p1 >= s.len() {
                (acc2, p1)
            } else if s[p1] == ',' {
                spec_attrs(s, p1 + 1, acc2)
            } else {
                (acc2, p1 + 1)
            }
        }
    }
}

#[via_fn]
proof fn spec_attrs_decreases(s: Seq<char>, pos: int, acc: Seq<(Seq<char>, Option<Seq<char>>)>) {
    lemma_eat_until_bounds(s, pos, Stop::AttrKey);
    let (key, p1) = eat_until(s, pos, Stop::AttrKey);
    if key.len() != 0 && p1 < s.len() && s[p1] == '=' {
        lemma_eat_until_bounds(s, p1 + 1, Stop::AttrValue);
    }
}

pub proof fn lemma_spec_attrs_bounds(
    s: Seq<char>,
    pos: int,
    acc: Seq<(Seq<char>, Option<Seq<char>>)>,
)
    requires
        0 <= pos <= s.len(),
    ensures
        pos <= spec_attrs(s, pos, acc).1 <= s.len(),
    decreases s.len() - pos,
{
    lemma_eat_until_bounds(s, pos, Stop::AttrKey);
    let (key, p1) = eat_until(s, pos, Stop::AttrKey);
    if key.len() != 0 {
        if p1 < s.len() && s[p1] == '=' {
            lemma_eat_until_bounds(s, p1 + 1, Stop::AttrValue);
            let (v, p2) = eat_until(s, p1 + 1, Stop::AttrValue);
            if p2 < s.len() && s[p2] == ',' {
                lemma_spec_attrs_bounds(s, p2 + 1, insert_attr(acc, trim_spec(key), Some(trim_spec(v))));
            }
        } else {
            if p1 < s.len() && s[p1] == ',' {
                lemma_spec_attrs_bounds(s, p1 + 1, insert_attr(acc, trim_spec(key), None));
            }
        }
    }
}

/// The next command: an explicit `@name[attrs]`, an implicit description
/// when the next character is not `@`, or nothing at the end of input (or
/// after a bare `@` with no name). Yields the command and the next
/// position.
pub open spec fn spec_next_command(s: Seq<char>, pos: int) -> (Option<CmdModel>, int)
    recommends
        0 <= pos <= s.len(),
{
    let p = skip_ws_star(s, pos);
    if p >= s.len() {
        (None, p)
    } else if s[p] == '@' {
        let (cmd, p2) = eat_until(s, p + 1, Stop::CommandEnd);
        if cmd.len() == 0 {
            (None, p2)
        } else if p2 < s.len() && s[p2] == '[' {
            let (attrs, p3) = spec_attrs(s, p2 + 1, Seq::empty());
            (Some(CmdModel { cmd, attrs }), p3)
        } else {
            (Some(CmdModel { cmd, attrs: Seq::empty() }), p2)
        }
    } else {
        (Some(CmdModel { cmd: "description"@, attrs: Seq::empty() }), p)
    }
}

pub proof fn lemma_spec_next_command_props(s: Seq<char>, pos: int)
    requires
        0 <= pos <= s.len(),
    ensures
        pos <= spec_next_command(s, pos).1 <= s.len(),
        spec_next_command(s, pos).0 is Some ==> spec_next_command(s, pos).1 > pos || ({
            let p = spec_next_command(s, pos).1;
            spec_next_command(s, pos).0->0.cmd == "description"@ && p < s.len() && s[p] != '@'
        }),
{
    lemma_skip_ws_star_bounds(s, pos);
    let p = skip_ws_star(s, pos);
    if p < s.len() && s[p] == '@' {
        lemma_eat_until_bounds(s, p + 1, Stop::CommandEnd);
        let (cmd, p2) = eat_until(s, p + 1, Stop::CommandEnd);
        if cmd.len() != 0 && p2 < s.len() && s[p2] == '[' {
            lemma_spec_attrs_bounds(s, p2 + 1, Seq::empty());
        }
    }
}

/// The next whitespace-delimited word, after leading whitespace and stars.
pub open spec fn spec_next_param(s: Seq<char>, pos: int) -> (Option<Seq<char>>, int)
    recommends
        0 <= pos <= s.len(),
{
    let p = skip_ws_star(s, pos);
    let (w, p2) = eat_until(s, p, Stop::Whitespace);
    (if w.len() == 0 {
        None
    } else {
        Some(w)
    }, p2)
}

/// The next value: text up to the next `@` or the end, trimmed; nothing
/// when it is empty.
pub open spec fn spec_next_value(s: Seq<char>, pos: int) -> (Option<Seq<char>>, int)
    recommends
        0 <= pos <= s.len(),
{
    let (v, p) = eat_until(s, pos, Stop::At);
    (if v.len() == 0 {
        None
    } else {
        Some(trim_spec(v))
    }, p)
}

/// A command's expected parameter, or the empty string when it is missing.
pub open spec fn spec_param_for(s: Seq<char>, pos: int) -> (Seq<char>, int) {
    let (w, p) = spec_next_param(s, pos);
    (match w {
        Some(w0) => w0,
        None => Seq::empty(),
    }, p)
}

/// A command's expected value, or the empty string when it is missing.
pub open spec fn spec_value_for(s: Seq<char>, pos: int) -> (Seq<char>, int) {
    let (v, p) = spec_next_value(s, pos);
    (match v {
        Some(v0) => v0,
        None => Seq::empty(),
    }, p)
}

pub proof fn lemma_spec_next_param_bounds(s: Seq<char>, pos: int)
    requires
        0 <= pos <= s.len(),
    ensures
        pos <= spec_next_param(s, pos).1 <= s.len(),
{
    lemma_skip_ws_star_bounds(s, pos);
    lemma_eat_until_bounds(s, skip_ws_star(s, pos), Stop::Whitespace);
}

pub proof fn lemma_spec_next_value_bounds(s: Seq<char>, pos: int)
    requires
        0 <= pos <= s.len(),
    ensures
        pos <= spec_next_value(s, pos).1 <= s.len(),
        pos < s.len() && s[pos] != '@' ==> spec_next_value(s, pos).1 > pos,
{
    lemma_eat_until_bounds(s, pos, Stop::At);
}

/// A parsed command: its name and its bracketed attributes, keys mapped to
/// optional values.
pub struct ParsedCommand {
    /// The command name, like `param` or `example`.
    pub cmd: String,
    /// Attribute pairs, trimmed but otherwise arbitrary.
    pub attrs: Vec<(String, Option<String>)>,
}

impl ParsedCommand {
    /// The model of this command.
    pub open spec fn model(&self) -> CmdModel {
        CmdModel { cmd: self.cmd@, attrs: attrs_view(self.attrs@) }
    }

    /// A command with no attributes.
    pub fn new(cmd: String) -> (r: ParsedCommand)
        ensures
            r.model() == (CmdModel { cmd: cmd@, attrs: Seq::empty() }),
    {
        let r = ParsedCommand { cmd, attrs: Vec::new() };
        proof {
            assert(attrs_view(r.attrs@) =~= Seq::<(Seq<char>, Option<Seq<char>>)>::empty());
        }
        r
    }

    /// A command with the given attributes.
    pub fn new_with(cmd: String, attrs: Vec<(String, Option<String>)>) -> (r: ParsedCommand)
        ensures
            r.model() == (CmdModel { cmd: cmd@, attrs: attrs_view(attrs@) }),
    {
        ParsedCommand { cmd, attrs }
    }

    /// Whether an attribute with the key is present.
    pub fn has_attr(&self, key: &str) -> (r: bool)
        ensures
            r == has_attr(attrs_view(self.attrs@), key@),
    {
        let ghost av = attrs_view(self.attrs@);
        let mut i: usize = 0;
        proof {
            lemma_find_attr_bounds(av, key@, 0);
        }
        while i < self.attrs.len()
            invariant
                i <= self.attrs@.len(),
                av == attrs_view(self.attrs@),
                find_attr(av, key@, 0) == find_attr(av, key@, i as int),
            decreases self.attrs@.len() - i,
        {
            if crate::linker::str_eq_str(self.attrs[i].0.as_str(), key) {
                proof {
                    assert(av[i as int].0 == key@);
                }
                return true;
            }
            proof {
                assert(av[i as int].0 != key@);
            }
            i += 1;
        }
        false
    }
}

/// Stores an attribute pair with map semantics: a later value replaces an
/// earlier one under the same key.
fn push_attr(attrs: Vec<(String, Option<String>)>, key: String, val: Option<String>) -> (r: Vec<
    (String, Option<String>),
>)
    ensures
        attrs_view(r@) == insert_attr(
            attrs_view(attrs@),
            key@,
            match val {
                Some(v) => Some(v@),
                None => None,
            },
        ),
{
    let mut out = attrs;
    let ghost av = attrs_view(out@);
    let ghost vv: Option<Seq<char>> = match val {
        Some(ref v) => Some(v@),
        None => None,
    };
    let n = out.len();
    let mut i: usize = 0;
    let mut found = false;
    proof {
        lemma_find_attr_bounds(av, key@, 0);
    }
    loop
        invariant_except_break
            i <= n,
            !found,
            n == out@.len(),
            av == attrs_view(out@),
            find_attr(av, key@, 0) == find_attr(av, key@, i as int),
        ensures
            found ==> i < n && find_attr(av, key@, 0) == i as int,
            !found ==> find_attr(av, key@, 0) == n as int,
        decreases n - i,
    {
        if i >= n {
            break;
        }
        if crate::linker::str_eq_str(out[i].0.as_str(), key.as_str()) {
            proof {
                assert(av[i as int].0 == key@);
            }
            found = true;
            break;
        }
        proof {
            assert(av[i as int].0 != key@);
        }
        i += 1;
    }
    let pair = (key, val);
    let ghost gpair = pair;
    let ghost prev = out@;
    if found {
        out[i] = pair;
        proof {
            assert(forall|k: int| 0 <= k < prev.len() && k != i as int ==> out@[k] == prev[k]);
            assert(forall|k: int|
                0 <= k < prev.len() && k != i as int ==> #[trigger] attrs_view(out@)[k]
                    == av[k]);
            assert(out@[i as int] == gpair);
            assert(attrs_view(out@)[i as int].0 == gpair.0@);
            assert(attrs_view(out@)[i as int].1 == vv);
            assert(insert_attr(av, gpair.0@, vv) == av.update(i as int, (gpair.0@, vv)));
            assert(attrs_view(out@) =~~= av.update(i as int, (gpair.0@, vv)));
        }
    } else {
        out.push(pair);
        proof {
            assert(forall|k: int| 0 <= k < prev.len() ==> out@[k] == prev[k]);
            assert(forall|k: int|
                0 <= k < prev.len() ==> #[trigger] attrs_view(out@)[k] == av[k]);
            assert(out@[prev.len() as int] == gpair);
            assert(attrs_view(out@)[prev.len() as int].0 == gpair.0@);
            assert(attrs_view(out@)[prev.len() as int].1 == vv);
            assert(insert_attr(av, gpair.0@, vv) == av.push((gpair.0@, vv)));
            assert(attrs_view(out@) =~~= av.push((gpair.0@, vv)));
        }
    }
    out
}

impl CommentLexer {
    /// Reads the next command, as [`spec_next_command`] describes.
    pub fn next_command(&mut self) -> (r: Option<ParsedCommand>)
        requires
            old(self).wf(),
        ensures
            final(self).wf(),
            final(self).input() == old(self).input(),
            ({
                let (c, p) = spec_next_command(old(self).input(), old(self).at());
                final(self).at() == p && (match (r, c) {
                    (Some(pc), Some(cm)) => pc.model() == cm,
                    (None, None) => true,
                    _ => false,
                })
            }),
    {
        let ghost s = self.chars@;
        let p = skip_ws_star_exec(&self.chars, self.pos);
        proof {
            lemma_skip_ws_star_bounds(s, self.pos as int);
        }
        if p >= self.chars.len() {
            self.pos = p;
            return None;
        }
        if self.chars[p] == '@' {
            let (cmdv, p2, _ind) = eat_until_rec(&self.chars, p + 1, Stop::CommandEnd, None);
            proof {
                lemma_eat_until_bounds(s, p + 1, Stop::CommandEnd);
            }
            if cmdv.len() == 0 {
                self.pos = p2;
                return None;
            }
            let cmd = string_from_chars(cmdv.as_slice());
            if p2 < self.chars.len() && self.chars[p2] == '[' {
                let mut attrs: Vec<(String, Option<String>)> = Vec::new();
                let mut pos = p2 + 1;
                proof {
                    assert(attrs_view(attrs@) =~= Seq::<(Seq<char>, Option<Seq<char>>)>::empty());
                }
                loop
                    invariant_except_break
                        pos <= s.len(),
                        s == self.chars@,
                        self.pos <= s.len(),
                        spec_attrs(s, p2 + 1, Seq::empty()) == spec_attrs(
                            s,
                            pos as int,
                            attrs_view(attrs@),
                        ),
                    ensures
                        s == self.chars@,
                        pos <= s.len(),
                        attrs_view(attrs@) == spec_attrs(s, p2 + 1, Seq::empty()).0,
                        pos as int == spec_attrs(s, p2 + 1, Seq::empty()).1,
                    decreases s.len() - pos,
                {
                    let (keyv, q1, _i1) = eat_until_rec(&self.chars, pos, Stop::AttrKey, None);
                    proof {
                        lemma_eat_until_bounds(s, pos as int, Stop::AttrKey);
                    }
                    if keyv.len() == 0 {
                        pos = q1;
                        break;
                    }
                    let key = trim_chars(&keyv);
                    if q1 < self.chars.len() && self.chars[q1] == '=' {
                        let (valv, q2, _i2) = eat_until_rec(
                            &self.chars,
                            q1 + 1,
                            Stop::AttrValue,
                            None,
                        );
                        proof {
                            lemma_eat_until_bounds(s, q1 + 1, Stop::AttrValue);
                        }
                        let value = trim_chars(&valv);
                        attrs = push_attr(attrs, key, Some(value));
                        if q2 >= self.chars.len() {
                            pos = q2;
                            break;
                        } else if self.chars[q2] == ',' {
                            pos = q2 + 1;
                        } else {
                            pos = q2 + 1;
                            break;
                        }
                    } else {
                        attrs = push_attr(attrs, key, None);
                        if q1 >= self.chars.len() {
                            pos = q1;
                            break;
                        } else if self.chars[q1] == ',' {
                            pos = q1 + 1;
                        } else {
                            pos = q1 + 1;
                            break;
                        }
                    }
                }
                self.pos = pos;
                Some(ParsedCommand::new_with(cmd, attrs))
            } else {
                self.pos = p2;
                Some(ParsedCommand::new(cmd))
            }
        } else {
            self.pos = p;
            proof {
                reveal_strlit("description");
            }
            Some(ParsedCommand::new(String::from_str("description")))
        }
    }

    /// Reads the next whitespace-delimited word, as [`spec_next_param`]
    /// describes.
    pub fn next_param(&mut self) -> (r: Option<String>)
        requires
            old(self).wf(),
        ensures
            final(self).wf(),
            final(self).input() == old(self).input(),
            ({
                let (w, p) = spec_next_param(old(self).input(), old(self).at());
                final(self).at() == p && (match (r, w) {
                    (Some(rs), Some(ws)) => rs@ == ws,
                    (None, None) => true,
                    _ => false,
                })
            }),
    {
        let ghost s = self.chars@;
        let p = skip_ws_star_exec(&self.chars, self.pos);
        proof {
            lemma_skip_ws_star_bounds(s, self.pos as int);
        }
        let (w, p2, _ind) = eat_until_rec(&self.chars, p, Stop::Whitespace, None);
        self.pos = p2;
        proof {
            lemma_eat_until_bounds(s, p as int, Stop::Whitespace);
        }
        if w.len() == 0 {
            None
        } else {
            Some(string_from_chars(w.as_slice()))
        }
    }

    /// Reads the next value, as [`spec_next_value`] describes.
    pub fn next_value(&mut self) -> (r: Option<String>)
        requires
            old(self).wf(),
        ensures
            final(self).wf(),
            final(self).input() == old(self).input(),
            ({
                let (v, p) = spec_next_value(old(self).input(), old(self).at());
                final(self).at() == p && (match (r, v) {
                    (Some(rs), Some(vs)) => rs@ == vs,
                    (None, None) => true,
                    _ => false,
                })
            }),
    {
        let ghost s = self.chars@;
        let (v, p, _ind) = eat_until_rec(&self.chars, self.pos, Stop::At, None);
        self.pos = p;
        proof {
            lemma_eat_until_bounds(s, old(self).at(), Stop::At);
        }
        if v.len() == 0 {
            None
        } else {
            Some(trim_chars(&v))
        }
    }

    /// The command's expected parameter, or the empty string when it is
    /// missing.
    pub fn param_for(&mut self) -> (r: String)
        requires
            old(self).wf(),
        ensures
            final(self).wf(),
            final(self).input() == old(self).input(),
            r@ == spec_param_for(old(self).input(), old(self).at()).0,
            final(self).at() == spec_param_for(old(self).input(), old(self).at()).1,
    {
        match self.next_param() {
            Some(w) => w,
            None => String::new(),
        }
    }

    /// The command's expected value, or the empty string when it is
    /// missing.
    pub fn value_for(&mut self) -> (r: String)
        requires
            old(self).wf(),
        ensures
            final(self).wf(),
            final(self).input() == old(self).input(),
            r@ == spec_value_for(old(self).input(), old(self).at()).0,
            final(self).at() == spec_value_for(old(self).input(), old(self).at()).1,
    {
        match self.next_value() {
            Some(v) => v,
            None => String::new(),
        }
    }
}


/// One example code block: its text, and whether it should be re-analyzed
/// for highlighting.
pub struct Example {
    pub data: String,
    pub analyze: bool,
}

impl Example {
    /// An example block.
    pub fn new(data: String, analyze: bool) -> (r: Example)
        ensures
            r.data@ == data@,
            r.analyze == analyze,
    {
        Example { data, analyze }
    }
}

/// The mathematical model of a parsed doc comment.
#[verifier::ext_equal]
pub struct DocModel {
    pub description: Option<Seq<char>>,
    pub params: Seq<(Seq<char>, Seq<char>)>,
    pub tparams: Seq<(Seq<char>, Seq<char>)>,
    pub returns: Option<Seq<char>>,
    pub throws: Option<Seq<char>>,
    pub see: Seq<Seq<char>>,
    pub notes: Seq<Seq<char>>,
    pub warnings: Seq<Seq<char>>,
    pub version: Option<Seq<char>>,
    pub since: Option<Seq<char>>,
    pub examples: Seq<(Seq<char>, bool)>,
}

/// The empty document.
pub open spec fn empty_doc() -> DocModel {
    DocModel {
        description: None,
        params: Seq::empty(),
        tparams: Seq::empty(),
        returns: None,
        throws: None,
        see: Seq::empty(),
        notes: Seq::empty(),
        warnings: Seq::empty(),
        version: None,
        since: None,
        examples: Seq::empty(),
    }
}

/// The views of a vector of name/text pairs.
pub open spec fn pairs_view(v: Seq<(String, String)>) -> Seq<(Seq<char>, Seq<char>)> {
    Seq::new(v.len(), |i: int| (v[i].0@, v[i].1@))
}

/// The views of a vector of strings.
pub open spec fn strs_view(v: Seq<String>) -> Seq<Seq<char>> {
    Seq::new(v.len(), |i: int| v[i]@)
}

/// The views of a vector of examples.
pub open spec fn examples_view(v: Seq<Example>) -> Seq<(Seq<char>, bool)> {
    Seq::new(v.len(), |i: int| (v[i].data@, v[i].analyze))
}

/// The view of an optional string.
pub open spec fn opt_view(o: Option<String>) -> Option<Seq<char>> {
    match o {
        Some(s) => Some(s@),
        None => None,
    }
}

/// A structured doc comment: description, parameters, returns, and the
/// other recognized commands, in their order of appearance.
pub struct JSDocComment {
    /// Description text.
    pub description: Option<String>,
    /// Parameters, from `@param` or `@arg`.
    pub params: Vec<(String, String)>,
    /// Template parameters, from `@tparam` or `@targ`.
    pub tparams: Vec<(String, String)>,
    /// Return value text.
    pub returns: Option<String>,
    /// Thrown exception text.
    pub throws: Option<String>,
    /// References to other items.
    pub see: Vec<String>,
    /// Notes about the item.
    pub notes: Vec<String>,
    /// Warnings about the item.
    pub warnings: Vec<String>,
    /// Item version.
    pub version: Option<String>,
    /// When the item was added.
    pub since: Option<String>,
    /// Example code blocks.
    pub examples: Vec<Example>,
}

impl JSDocComment {
    /// The model of this document.
    pub open spec fn model(&self) -> DocModel {
        DocModel {
            description: opt_view(self.description),
            params: pairs_view(self.params@),
            tparams: pairs_view(self.tparams@),
            returns: opt_view(self.returns),
            throws: opt_view(self.throws),
            see: strs_view(self.see@),
            notes: strs_view(self.notes@),
            warnings: strs_view(self.warnings@),
            version: opt_view(self.version),
            since: opt_view(self.since),
            examples: examples_view(self.examples@),
        }
    }

    /// The empty document.
    pub fn new() -> (r: JSDocComment)
        ensures
            r.model() == empty_doc(),
    {
        let r = JSDocComment {
            description: None,
            params: Vec::new(),
            tparams: Vec::new(),
            returns: None,
            throws: None,
            see: Vec::new(),
            notes: Vec::new(),
            warnings: Vec::new(),
            version: None,
            since: None,
            examples: Vec::new(),
        };
        proof {
            assert(r.model() =~~= empty_doc());
        }
        r
    }

    /// The example blocks.
    pub fn examples(&self) -> (r: &Vec<Example>)
        ensures
            r == &self.examples,
    {
        &self.examples
    }

    /// Parses a raw comment into a structured document, as [`spec_parse`]
    /// describes. Total: any input yields a document, never a failure.
    pub fn parse(raw: &str) -> (r: JSDocComment)
        ensures
            r.model() == spec_parse(lexer_input(raw@), 0, empty_doc()),
    {
        let mut lexer = CommentLexer::new(raw);
        let mut doc = JSDocComment::new();
        let ghost s = lexer.input();
        proof {
            reveal_strlit("description");
            reveal_strlit("desc");
            reveal_strlit("brief");
            reveal_strlit("param");
            reveal_strlit("arg");
            reveal_strlit("tparam");
            reveal_strlit("targ");
            reveal_strlit("return");
            reveal_strlit("returns");
            reveal_strlit("throws");
            reveal_strlit("see");
            reveal_strlit("note");
            reveal_strlit("warning");
            reveal_strlit("warn");
            reveal_strlit("version");
            reveal_strlit("since");
            reveal_strlit("example");
            reveal_strlit("code");
            reveal_strlit("analyze");
        }
        loop
            invariant_except_break
                lexer.wf(),
                lexer.input() == s,
                spec_parse(s, 0, empty_doc()) == spec_parse(s, lexer.at(), doc.model()),
            ensures
                doc.model() == spec_parse(s, 0, empty_doc()),
            decreases s.len() - lexer.at(),
        {
            let ghost pos0 = lexer.at();
            let ghost doc0 = doc.model();
            proof {
                lemma_spec_next_command_props(s, pos0);
            }
            let cmd = match lexer.next_command() {
                None => {
                    break;
                },
                Some(c) => c,
            };
            let ghost p1 = lexer.at();
            let c = &cmd.cmd;
            if crate::linker::str_eq_str(c.as_str(), "description") || crate::linker::str_eq_str(
                c.as_str(),
                "desc",
            ) || crate::linker::str_eq_str(c.as_str(), "brief") {
                proof {
                    lemma_spec_next_value_bounds(s, p1);
                }
                let d = lexer.next_value();
                doc.description = d;
                proof {
                    assert(doc.model() =~~= (DocModel {
                        description: spec_next_value(s, p1).0,
                        ..doc0
                    }));
                }
            } else if crate::linker::str_eq_str(c.as_str(), "param") || crate::linker::str_eq_str(
                c.as_str(),
                "arg",
            ) {
                let name = lexer.param_for();
                let value = lexer.value_for();
                let ghost pv = pairs_view(doc.params@);
                doc.params.push((name, value));
                proof {
                    assert(pairs_view(doc.params@) =~~= pv.push(
                        (spec_param_for(s, p1).0, spec_value_for(s, spec_param_for(s, p1).1).0),
                    ));
                    assert(doc.model() =~~= (DocModel {
                        params: doc0.params.push(
                            (
                                spec_param_for(s, p1).0,
                                spec_value_for(s, spec_param_for(s, p1).1).0,
                            ),
                        ),
                        ..doc0
                    }));
                }
            } else if crate::linker::str_eq_str(c.as_str(), "tparam") || crate::linker::str_eq_str(
                c.as_str(),
                "targ",
            ) {
                let name = lexer.param_for();
                let value = lexer.value_for();
                let ghost pv = pairs_view(doc.tparams@);
                doc.tparams.push((name, value));
                proof {
                    assert(pairs_view(doc.tparams@) =~~= pv.push(
                        (spec_param_for(s, p1).0, spec_value_for(s, spec_param_for(s, p1).1).0),
                    ));
                    assert(doc.model() =~~= (DocModel {
                        tparams: doc0.tparams.push(
                            (
                                spec_param_for(s, p1).0,
                                spec_value_for(s, spec_param_for(s, p1).1).0,
                            ),
                        ),
                        ..doc0
                    }));
                }
            } else if crate::linker::str_eq_str(c.as_str(), "return") || crate::linker::str_eq_str(
                c.as_str(),
                "returns",
            ) {
                let v = lexer.value_for();
                doc.returns = Some(v);
                proof {
                    assert(doc.model() =~~= (DocModel {
                        returns: Some(spec_value_for(s, p1).0),
                        ..doc0
                    }));
                }
            } else if crate::linker::str_eq_str(c.as_str(), "throws") {
                let v = lexer.value_for();
                doc.throws = Some(v);
                proof {
                    assert(doc.model() =~~= (DocModel {
                        throws: Some(spec_value_for(s, p1).0),
                        ..doc0
                    }));
                }
            } else if crate::linker::str_eq_str(c.as_str(), "see") {
                let v = lexer.value_for();
                let ghost sv = strs_view(doc.see@);
                doc.see.push(v);
                proof {
                    assert(strs_view(doc.see@) =~~= sv.push(spec_value_for(s, p1).0));
                    assert(doc.model() =~~= (DocModel {
                        see: doc0.see.push(spec_value_for(s, p1).0),
                        ..doc0
                    }));
                }
            } else if crate::linker::str_eq_str(c.as_str(), "note") {
                let v = lexer.value_for();
                let ghost sv = strs_view(doc.notes@);
                doc.notes.push(v);
                proof {
                    assert(strs_view(doc.notes@) =~~= sv.push(spec_value_for(s, p1).0));
                    assert(doc.model() =~~= (DocModel {
                        notes: doc0.notes.push(spec_value_for(s, p1).0),
                        ..doc0
                    }));
                }
            } else if crate::linker::str_eq_str(c.as_str(), "warning") || crate::linker::str_eq_str(
                c.as_str(),
                "warn",
            ) {
                let v = lexer.value_for();
                let ghost sv = strs_view(doc.warnings@);
                doc.warnings.push(v);
                proof {
                    assert(strs_view(doc.warnings@) =~~= sv.push(spec_value_for(s, p1).0));
                    assert(doc.model() =~~= (DocModel {
                        warnings: doc0.warnings.push(spec_value_for(s, p1).0),
                        ..doc0
                    }));
                }
            } else if crate::linker::str_eq_str(c.as_str(), "version") {
                let v = lexer.value_for();
                doc.version = Some(v);
                proof {
                    assert(doc.model() =~~= (DocModel {
                        version: Some(spec_value_for(s, p1).0),
                        ..doc0
                    }));
                }
            } else if crate::linker::str_eq_str(c.as_str(), "since") {
                let v = lexer.value_for();
                doc.since = Some(v);
                proof {
                    assert(doc.model() =~~= (DocModel {
                        since: Some(spec_value_for(s, p1).0),
                        ..doc0
                    }));
                }
            } else if crate::linker::str_eq_str(c.as_str(), "example") || crate::linker::str_eq_str(
                c.as_str(),
                "code",
            ) {
                let v = lexer.value_for();
                let analyze = cmd.has_attr("analyze");
                let ghost ev = examples_view(doc.examples@);
                doc.examples.push(Example::new(v, analyze));
                proof {
                    assert(examples_view(doc.examples@) =~~= ev.push(
                        (spec_value_for(s, p1).0, has_attr(cmd.model().attrs, "analyze"@)),
                    ));
                    assert(doc.model() =~~= (DocModel {
                        examples: doc0.examples.push(
                            (spec_value_for(s, p1).0, has_attr(cmd.model().attrs, "analyze"@)),
                        ),
                        ..doc0
                    }));
                }
            } else {
                let _ = lexer.next_value();
            }
            proof {
                lemma_spec_next_value_bounds(s, p1);
                lemma_spec_next_param_bounds(s, p1);
                lemma_spec_next_value_bounds(s, spec_param_for(s, p1).1);
                assert(spec_parse(s, 0, empty_doc()) == spec_parse(s, lexer.at(), doc.model()));
            }
        }
        doc
    }
}

/// The document parsed from position `pos` on, command by command, starting
/// from what `acc` already holds. For any input this is defined — a bare
/// `@`, an unknown tag or a missing value degrade to empty values and
/// parsing goes on.
pub open spec fn spec_parse(s: Seq<char>, pos: int, acc: DocModel) -> DocModel
    decreases s.len() - pos when 0 <= pos <= s.len() via spec_parse_decreases
{
    let (c, p1) = spec_next_command(s, pos);
    match c {
        None => acc,
        Some(cm) => {
            if cm.cmd == "description"@ || cm.cmd == "desc"@ || cm.cmd == "brief"@ {
                let (d, p2) = spec_next_value(s, p1);
                spec_parse(s, p2, DocModel { description: d, ..acc })
            } else if cm.cmd == "param"@ || cm.cmd == "arg"@ {
                let (n, p2) = spec_param_for(s, p1);
                let (v, p3) = spec_value_for(s, p2);
                spec_parse(s, p3, DocModel { params: acc.params.push((n, v)), ..acc })
            } else if cm.cmd == "tparam"@ || cm.cmd == "targ"@ {
                let (n, p2) = spec_param_for(s, p1);
                let (v, p3) = spec_value_for(s, p2);
                spec_parse(s, p3, DocModel { tparams: acc.tparams.push((n, v)), ..acc })
            } else if cm.cmd == "return"@ || cm.cmd == "returns"@ {
                let (v, p2) = spec_value_for(s, p1);
                spec_parse(s, p2, DocModel { returns: Some(v), ..acc })
            } else if cm.cmd == "throws"@ {
                let (v, p2) = spec_value_for(s, p1);
                spec_parse(s, p2, DocModel { throws: Some(v), ..acc })
            } else if cm.cmd == "see"@ {
                let (v, p2) = spec_value_for(s, p1);
                spec_parse(s, p2, DocModel { see: acc.see.push(v), ..acc })
            } else if cm.cmd == "note"@ {
                let (v, p2) = spec_value_for(s, p1);
                spec_parse(s, p2, DocModel { notes: acc.notes.push(v), ..acc })
            } else if cm.cmd == "warning"@ || cm.cmd == "warn"@ {
                let (v, p2) = spec_value_for(s, p1);
                spec_parse(s, p2, DocModel { warnings: acc.warnings.push(v), ..acc })
            } else if cm.cmd == "version"@ {
                let (v, p2) = spec_value_for(s, p1);
                spec_parse(s, p2, DocModel { version: Some(v), ..acc })
            } else if cm.cmd == "since"@ {
                let (v, p2) = spec_value_for(s, p1);
                spec_parse(s, p2, DocModel { since: Some(v), ..acc })
            } else if cm.cmd == "example"@ || cm.cmd == "code"@ {
                let (v, p2) = spec_value_for(s, p1);
                spec_parse(
                    s,
                    p2,
                    DocModel { examples: acc.examples.push((v, has_attr(cm.attrs, "analyze"@))), ..acc },
                )
            } else {
                let (v, p2) = spec_next_value(s, p1);
                spec_parse(s, p2, acc)
            }
        },
    }
}

#[via_fn]
proof fn spec_parse_decreases(s: Seq<char>, pos: int, acc: DocModel) {
    lemma_spec_next_command_props(s, pos);
    let (c, p1) = spec_next_command(s, pos);
    if c is Some {
        lemma_spec_next_value_bounds(s, p1);
        lemma_spec_next_param_bounds(s, p1);
        let p2p = spec_param_for(s, p1).1;
        lemma_spec_next_value_bounds(s, p2p);
    }
}


/// A plain paragraph whose text is a fixed label followed by a value.
pub open spec fn spec_label_p(label: Seq<char>, v: Seq<char>) -> crate::html::HtmlModel {
    crate::html::HtmlModel::Element {
        tag: "p"@,
        classes: Seq::empty(),
        attributes: Seq::empty(),
        children: seq![crate::html::HtmlModel::Text { content: label + v }],
    }
}

/// The version/since tag block of a rendered comment.
pub open spec fn spec_tags_div(version: Option<Seq<char>>, since: Option<Seq<char>>) -> crate::html::HtmlModel {
    crate::html::HtmlModel::Element {
        tag: "div"@,
        classes: seq!["tags"@],
        attributes: Seq::empty(),
        children: (match version {
            Some(v) => seq![spec_label_p("Version "@, v)],
            None => Seq::empty(),
        }) + (match since {
            Some(v) => seq![spec_label_p("Since "@, v)],
            None => Seq::empty(),
        }),
    }
}

/// A `span.title` holding a section heading.
pub open spec fn spec_title_span(title: Seq<char>) -> crate::html::HtmlModel {
    crate::html::HtmlModel::Element {
        tag: "span"@,
        classes: seq!["title"@],
        attributes: Seq::empty(),
        children: seq![crate::html::HtmlModel::Text { content: title }],
    }
}

/// A `div` holding plain text.
pub open spec fn spec_text_div(text: Seq<char>) -> crate::html::HtmlModel {
    crate::html::HtmlModel::Element {
        tag: "div"@,
        classes: Seq::empty(),
        attributes: Seq::empty(),
        children: seq![crate::html::HtmlModel::Text { content: text }],
    }
}

/// The name/text cells of a parameter grid from index `i` on: each pair
/// contributes its name as a paragraph and its text as a block.
pub open spec fn spec_pairs_grid(pairs: Seq<(Seq<char>, Seq<char>)>, i: int) -> Seq<
    crate::html::HtmlModel,
>
    decreases pairs.len() - i when 0 <= i <= pairs.len()
{
    if i >= pairs.len() {
        Seq::empty()
    } else {
        seq![
            crate::html::HtmlModel::Element {
                tag: "p"@,
                classes: Seq::empty(),
                attributes: Seq::empty(),
                children: seq![crate::html::HtmlModel::Text { content: pairs[i].0 }],
            },
            spec_text_div(pairs[i].1),
        ] + spec_pairs_grid(pairs, i + 1)
    }
}

/// A parameter section: its heading and the grid of name/text cells.
pub open spec fn spec_params_section(
    classes: Seq<Seq<char>>,
    title: Seq<char>,
    pairs: Seq<(Seq<char>, Seq<char>)>,
) -> crate::html::HtmlModel {
    crate::html::HtmlModel::Element {
        tag: "section"@,
        classes,
        attributes: Seq::empty(),
        children: seq![
            spec_title_span(title),
            crate::html::HtmlModel::Element {
                tag: "div"@,
                classes: seq!["grid"@],
                attributes: Seq::empty(),
                children: spec_pairs_grid(pairs, 0),
            },
        ],
    }
}

/// A text section: its heading and one text block.
pub open spec fn spec_text_section(
    classes: Seq<Seq<char>>,
    title: Seq<char>,
    text: Seq<char>,
) -> crate::html::HtmlModel {
    crate::html::HtmlModel::Element {
        tag: "section"@,
        classes,
        attributes: Seq::empty(),
        children: seq![spec_title_span(title), spec_text_div(text)],
    }
}

/// A plain example block: preformatted code carrying the example classes.
pub open spec fn spec_example_html(data: Seq<char>) -> crate::html::HtmlModel {
    crate::html::HtmlModel::Element {
        tag: "pre"@,
        classes: Seq::empty(),
        attributes: Seq::empty(),
        children: seq![
            crate::html::HtmlModel::Element {
                tag: "code"@,
                classes: seq!["example"@, "language-cpp"@],
                attributes: Seq::empty(),
                children: seq![crate::html::HtmlModel::Text { content: data }],
            },
        ],
    }
}

/// The note sections of a rendered comment.
pub open spec fn spec_note_sections(notes: Seq<Seq<char>>, kind_class: Seq<char>, title: Seq<char>) -> Seq<
    crate::html::HtmlModel,
> {
    Seq::new(notes.len(), |i: int| spec_text_section(seq![kind_class], title, notes[i]))
}

/// The example blocks of a rendered comment.
pub open spec fn spec_example_blocks(examples: Seq<(Seq<char>, bool)>) -> Seq<
    crate::html::HtmlModel,
> {
    Seq::new(examples.len(), |i: int| spec_example_html(examples[i].0))
}

/// The rendered document: one description block holding, in order, the tag
/// block, the pre-rendered description when there is one, the parameter and
/// template-parameter grids when they are filled, the return and exception
/// sections when present, every note, every warning, and, when asked for,
/// every example as a plain code block.
pub open spec fn spec_doc_html(
    m: DocModel,
    desc: Option<crate::html::HtmlModel>,
    include_examples: bool,
) -> crate::html::HtmlModel {
    crate::html::HtmlModel::List {
        list: seq![
            crate::html::HtmlModel::Element {
                tag: "div"@,
                classes: seq!["description"@],
                attributes: Seq::empty(),
                children: seq![spec_tags_div(m.version, m.since)] + (match desc {
                    Some(d) => seq![d],
                    None => Seq::empty(),
                }) + (if m.params.len() > 0 {
                    seq![spec_params_section(seq!["params"@], "Parameters"@, m.params)]
                } else {
                    Seq::empty()
                }) + (if m.tparams.len() > 0 {
                    seq![
                        spec_params_section(
                            seq!["params"@, "template"@],
                            "Template parameters"@,
                            m.tparams,
                        ),
                    ]
                } else {
                    Seq::empty()
                }) + (match m.returns {
                    Some(r) => seq![
                        spec_text_section(
                            seq!["params"@, "returns"@, "grid"@],
                            "Return value"@,
                            r,
                        ),
                    ],
                    None => Seq::empty(),
                }) + (match m.throws {
                    Some(r) => seq![
                        spec_text_section(seq!["params"@, "throws"@, "grid"@], "Exceptions"@, r),
                    ],
                    None => Seq::empty(),
                }) + spec_note_sections(m.notes, "note"@, "Note"@) + spec_note_sections(
                    m.warnings,
                    "warning"@,
                    "Warning"@,
                ) + (if include_examples {
                    spec_example_blocks(m.examples)
                } else {
                    Seq::empty()
                }),
            },
        ],
    }
}

/// A paragraph holding a label and a value.
#[verifier::spinoff_prover]
fn label_p(label: &str, v: &str) -> (r: crate::html::Html)
    ensures
        crate::html::html_model(r) == spec_label_p(label@, v@),
{
    let mut text = String::new();
    text.append(label);
    text.append(v);
    let r = crate::html::Html::p(text.as_str());
    proof {
        assert(crate::html::html_model(r) =~~= spec_label_p(label@, v@));
    }
    r
}

/// The version/since tag block.
#[verifier::spinoff_prover]
fn tags_div(version: &Option<String>, since: &Option<String>) -> (r: crate::html::Html)
    ensures
        crate::html::html_model(r) == spec_tags_div(opt_view(*version), opt_view(*since)),
{
    proof {
        reveal_strlit("tags");
        reveal_strlit("Version ");
        reveal_strlit("Since ");
    }
    let mut e = crate::html::HtmlElement::new("div").with_class("tags");
    match version {
        Some(v) => {
            e = e.with_child(label_p("Version ", v.as_str()));
        },
        None => {},
    }
    match since {
        Some(v) => {
            e = e.with_child(label_p("Since ", v.as_str()));
        },
        None => {},
    }
    let ghost ge = e;
    let r = crate::html::Html::Element(e);
    proof {
        crate::html::lemma_html_models_index(ge.children@);
        assert(crate::html::strs(ge.classes@) =~~= seq!["tags"@]);
        assert(crate::html::attrs_pairs(ge.attributes@) =~~= Seq::<(Seq<char>, Seq<char>)>::empty());
        assert(crate::html::html_models(ge.children@) =~~= spec_tags_div(
            opt_view(*version),
            opt_view(*since),
        )->Element_children);
        assert(crate::html::html_model(r) =~~= spec_tags_div(opt_view(*version), opt_view(*since)));
    }
    r
}

/// A section holding a heading and one text block.
#[verifier::spinoff_prover]
fn text_section(classes: &Vec<String>, title: &str, text: &str) -> (r: crate::html::Html)
    ensures
        crate::html::html_model(r) == spec_text_section(
            crate::html::strs(classes@),
            title@,
            text@,
        ),
{
    proof {
        reveal_strlit("title");
        reveal_strlit("grid");
    }
    let mut title_classes: Vec<String> = Vec::new();
    title_classes.push(String::from_str("title"));
    let title_span = crate::html::Html::span(&title_classes, title);
    let body = crate::html::Html::div(text);
    let e = crate::html::HtmlElement::new("section").with_classes(classes).with_child(
        title_span,
    ).with_child(body);
    let ghost ge = e;
    let r = crate::html::Html::Element(e);
    proof {
        crate::html::lemma_html_models_index(ge.children@);
        assert(crate::html::strs(title_classes@) =~~= seq!["title"@]);
        assert(crate::html::strs(ge.classes@) =~~= crate::html::strs(classes@));
        assert(crate::html::attrs_pairs(ge.attributes@) =~~= Seq::<(Seq<char>, Seq<char>)>::empty());
        assert(crate::html::html_models(ge.children@) =~~= seq![
            spec_title_span(title@),
            spec_text_div(text@),
        ]);
        assert(crate::html::html_model(r) =~~= spec_text_section(
            crate::html::strs(classes@),
            title@,
            text@,
        ));
    }
    r
}

/// A section holding a heading and the name/text grid of a pair list.
#[verifier::spinoff_prover]
#[verifier::rlimit(100)]
fn params_section(classes: &Vec<String>, title: &str, pairs: &Vec<(String, String)>) -> (r:
    crate::html::Html)
    ensures
        crate::html::html_model(r) == spec_params_section(
            crate::html::strs(classes@),
            title@,
            pairs_view(pairs@),
        ),
{
    proof {
        reveal_strlit("title");
        reveal_strlit("grid");
    }
    let ghost pv = pairs_view(pairs@);
    let mut cells: Vec<crate::html::Html> = Vec::new();
    let mut i: usize = 0;
    proof {
        crate::html::lemma_html_models_index(cells@);
        assert(crate::html::html_models(cells@) + spec_pairs_grid(pv, 0) =~= spec_pairs_grid(
            pv,
            0,
        ));
    }
    while i < pairs.len()
        invariant
            i <= pairs@.len(),
            pv == pairs_view(pairs@),
            pv.len() == pairs@.len(),
            crate::html::html_models(cells@) + spec_pairs_grid(pv, i as int) == spec_pairs_grid(
                pv,
                0,
            ),
        decreases pairs@.len() - i,
    {
        let name_p = crate::html::Html::p(pairs[i].0.as_str());
        let value_div = crate::html::Html::div(pairs[i].1.as_str());
        let ghost prev = cells@;
        cells.push(name_p);
        cells.push(value_div);
        i += 1;
        proof {
            crate::html::lemma_html_models_index(prev);
            crate::html::lemma_html_models_index(cells@);
            assert(pv[i - 1] == (pairs@[i - 1].0@, pairs@[i - 1].1@));
            assert(crate::html::html_models(cells@) =~~= crate::html::html_models(prev) + seq![
                crate::html::HtmlModel::Element {
                    tag: "p"@,
                    classes: Seq::empty(),
                    attributes: Seq::empty(),
                    children: seq![crate::html::HtmlModel::Text { content: pv[i - 1].0 }],
                },
                spec_text_div(pv[i - 1].1),
            ]);
            assert(crate::html::html_models(cells@) + spec_pairs_grid(pv, i as int)
                =~~= spec_pairs_grid(pv, 0));
        }
    }
    proof {
        assert(crate::html::html_models(cells@) =~~= spec_pairs_grid(pv, 0));
    }
    let mut title_classes: Vec<String> = Vec::new();
    title_classes.push(String::from_str("title"));
    let title_span = crate::html::Html::span(&title_classes, title);
    let grid = crate::html::HtmlElement::new("div").with_class("grid").with_children(cells);
    let ghost ggrid = grid;
    let e = crate::html::HtmlElement::new("section").with_classes(classes).with_child(
        title_span,
    ).with_child(crate::html::Html::Element(grid));
    let ghost ge = e;
    let r = crate::html::Html::Element(e);
    proof {
        crate::html::lemma_html_models_index(ggrid.children@);
        crate::html::lemma_html_models_index(ge.children@);
        assert(crate::html::strs(title_classes@) =~~= seq!["title"@]);
        assert(crate::html::strs(ggrid.classes@) =~~= seq!["grid"@]);
        assert(crate::html::attrs_pairs(ggrid.attributes@) =~~= Seq::<
            (Seq<char>, Seq<char>),
        >::empty());
        assert(crate::html::html_model(crate::html::Html::Element(ggrid))
            =~~= spec_params_section(
            crate::html::strs(classes@),
            title@,
            pv,
        )->Element_children[1]);
        assert(crate::html::strs(ge.classes@) =~~= crate::html::strs(classes@));
        assert(crate::html::attrs_pairs(ge.attributes@) =~~= Seq::<(Seq<char>, Seq<char>)>::empty());
        assert(crate::html::html_models(ge.children@) =~~= spec_params_section(
            crate::html::strs(classes@),
            title@,
            pv,
        )->Element_children);
        assert(crate::html::html_model(r) =~~= spec_params_section(
            crate::html::strs(classes@),
            title@,
            pv,
        ));
    }
    r
}

impl Example {
    /// This example as a plain code block, as [`spec_example_html`]
    /// describes. Re-analyzed highlighting is the surrounding program's
    /// concern; the plain block is what every example degrades to.
    pub fn to_html(&self) -> (r: crate::html::Html)
        ensures
            crate::html::html_model(r) == spec_example_html(self.data@),
    {
        proof {
            reveal_strlit("example");
            reveal_strlit("language-cpp");
            reveal_strlit("pre");
            reveal_strlit("code");
        }
        let mut code_classes: Vec<String> = Vec::new();
        code_classes.push(String::from_str("example"));
        code_classes.push(String::from_str("language-cpp"));
        let code = crate::html::HtmlElement::new("code").with_classes(&code_classes).with_text(
            self.data.as_str(),
        );
        let ghost gcode = code;
        let e = crate::html::HtmlElement::new("pre").with_child(crate::html::Html::Element(code));
        let ghost ge = e;
        let r = crate::html::Html::Element(e);
        proof {
            crate::html::lemma_html_models_index(gcode.children@);
            crate::html::lemma_html_models_index(ge.children@);
            assert(crate::html::strs(gcode.classes@) =~~= seq!["example"@, "language-cpp"@]);
            assert(crate::html::attrs_pairs(gcode.attributes@) =~~= Seq::<
                (Seq<char>, Seq<char>),
            >::empty());
            assert(crate::html::strs(ge.classes@) =~~= Seq::<Seq<char>>::empty());
            assert(crate::html::attrs_pairs(ge.attributes@) =~~= Seq::<
                (Seq<char>, Seq<char>),
            >::empty());
            assert(crate::html::html_model(crate::html::Html::Element(gcode))
                =~~= spec_example_html(self.data@)->Element_children[0]);
            assert(crate::html::html_models(ge.children@) =~~= spec_example_html(
                self.data@,
            )->Element_children);
            assert(crate::html::html_model(r) =~~= spec_example_html(self.data@));
        }
        r
    }
}

impl JSDocComment {
    /// Renders this document, as [`spec_doc_html`] describes: the
    /// pre-rendered description markup, when one exists, is spliced in
    /// behind the tag block.
    #[verifier::spinoff_prover]
    #[verifier::rlimit(100)]
    pub fn to_html(&self, description_html: Option<crate::html::Html>, include_examples: bool) -> (r: crate::html::Html)
        ensures
            crate::html::html_model(r) == spec_doc_html(
                self.model(),
                match description_html {
                    Some(d) => Some(crate::html::html_model(d)),
                    None => None,
                },
                include_examples,
            ),
    {
        proof {
            reveal_strlit("description");
            reveal_strlit("params");
            reveal_strlit("template");
            reveal_strlit("returns");
            reveal_strlit("throws");
            reveal_strlit("grid");
            reveal_strlit("note");
            reveal_strlit("warning");
            reveal_strlit("Parameters");
            reveal_strlit("Template parameters");
            reveal_strlit("Return value");
            reveal_strlit("Exceptions");
            reveal_strlit("Note");
            reveal_strlit("Warning");
        }
        let ghost m = self.model();
        let ghost dm: Option<crate::html::HtmlModel> = match description_html {
            Some(ref d) => Some(crate::html::html_model(*d)),
            None => None,
        };
        let mut e = crate::html::HtmlElement::new("div").with_class("description").with_child(
            tags_div(&self.version, &self.since),
        );
        match description_html {
            Some(d) => {
                e = e.with_child(d);
            },
            None => {},
        }
        if self.params.len() > 0 {
            let mut classes: Vec<String> = Vec::new();
            classes.push(String::from_str("params"));
            e = e.with_child(params_section(&classes, "Parameters", &self.params));
        }
        if self.tparams.len() > 0 {
            let mut classes: Vec<String> = Vec::new();
            classes.push(String::from_str("params"));
            classes.push(String::from_str("template"));
            e = e.with_child(params_section(&classes, "Template parameters", &self.tparams));
        }
        match &self.returns {
            Some(ret) => {
                let mut classes: Vec<String> = Vec::new();
                classes.push(String::from_str("params"));
                classes.push(String::from_str("returns"));
                classes.push(String::from_str("grid"));
                e = e.with_child(text_section(&classes, "Return value", ret.as_str()));
            },
            None => {},
        }
        match &self.throws {
            Some(ret) => {
                let mut classes: Vec<String> = Vec::new();
                classes.push(String::from_str("params"));
                classes.push(String::from_str("throws"));
                classes.push(String::from_str("grid"));
                e = e.with_child(text_section(&classes, "Exceptions", ret.as_str()));
            },
            None => {},
        }
        proof {
            crate::html::lemma_html_models_index(e.children@);
            assert(crate::html::html_models(e.children@) =~~= seq![
                spec_tags_div(m.version, m.since),
            ] + (match dm {
                Some(d) => seq![d],
                None => Seq::empty(),
            }) + (if m.params.len() > 0 {
                seq![spec_params_section(seq!["params"@], "Parameters"@, m.params)]
            } else {
                Seq::empty()
            }) + (if m.tparams.len() > 0 {
                seq![
                    spec_params_section(
                        seq!["params"@, "template"@],
                        "Template parameters"@,
                        m.tparams,
                    ),
                ]
            } else {
                Seq::empty()
            }) + (match m.returns {
                Some(r0) => seq![
                    spec_text_section(seq!["params"@, "returns"@, "grid"@], "Return value"@, r0),
                ],
                None => Seq::empty(),
            }) + (match m.throws {
                Some(r0) => seq![
                    spec_text_section(seq!["params"@, "throws"@, "grid"@], "Exceptions"@, r0),
                ],
                None => Seq::empty(),
            }));
        }
        let ghost before_notes = crate::html::html_models(e.children@);
        let mut i: usize = 0;
        while i < self.notes.len()
            invariant
                i <= self.notes@.len(),
                e.tag@ == "div"@,
                crate::html::strs(e.classes@) == seq!["description"@],
                crate::html::attrs_pairs(e.attributes@) == Seq::<(Seq<char>, Seq<char>)>::empty(),
                crate::html::html_models(e.children@) == before_notes + spec_note_sections(
                    strs_view(self.notes@),
                    "note"@,
                    "Note"@,
                ).take(i as int),
            decreases self.notes@.len() - i,
        {
            let mut classes: Vec<String> = Vec::new();
            classes.push(String::from_str("note"));
            let ghost prev = e.children@;
            e = e.with_child(text_section(&classes, "Note", self.notes[i].as_str()));
            i += 1;
            proof {
                crate::html::lemma_html_models_index(prev);
                crate::html::lemma_html_models_index(e.children@);
                assert(crate::html::strs(classes@) =~~= seq!["note"@]);
                assert(spec_note_sections(strs_view(self.notes@), "note"@, "Note"@)[i - 1]
                    == spec_text_section(seq!["note"@], "Note"@, self.notes@[i - 1]@));
                assert(spec_note_sections(strs_view(self.notes@), "note"@, "Note"@).take(
                    i as int,
                ) =~= spec_note_sections(strs_view(self.notes@), "note"@, "Note"@).take(
                    i - 1,
                ).push(spec_text_section(seq!["note"@], "Note"@, self.notes@[i - 1]@)));
                assert(crate::html::html_models(e.children@) =~~= (before_notes
                    + spec_note_sections(strs_view(self.notes@), "note"@, "Note"@).take(
                    i - 1,
                )).push(spec_text_section(seq!["note"@], "Note"@, self.notes@[i - 1]@)));
                assert(crate::html::html_models(e.children@) =~~= before_notes
                    + spec_note_sections(strs_view(self.notes@), "note"@, "Note"@).take(
                    i as int,
                ));
            }
        }
        proof {
            assert(spec_note_sections(strs_view(self.notes@), "note"@, "Note"@).take(
                self.notes@.len() as int,
            ) =~= spec_note_sections(strs_view(self.notes@), "note"@, "Note"@));
        }
        let ghost before_warnings = crate::html::html_models(e.children@);
        let mut i: usize = 0;
        while i < self.warnings.len()
            invariant
                i <= self.warnings@.len(),
                e.tag@ == "div"@,
                crate::html::strs(e.classes@) == seq!["description"@],
                crate::html::attrs_pairs(e.attributes@) == Seq::<(Seq<char>, Seq<char>)>::empty(),
                crate::html::html_models(e.children@) == before_warnings + spec_note_sections(
                    strs_view(self.warnings@),
                    "warning"@,
                    "Warning"@,
                ).take(i as int),
            decreases self.warnings@.len() - i,
        {
            let mut classes: Vec<String> = Vec::new();
            classes.push(String::from_str("warning"));
            let ghost prev = e.children@;
            e = e.with_child(text_section(&classes, "Warning", self.warnings[i].as_str()));
            i += 1;
            proof {
                crate::html::lemma_html_models_index(prev);
                crate::html::lemma_html_models_index(e.children@);
                assert(crate::html::strs(classes@) =~~= seq!["warning"@]);
                assert(spec_note_sections(strs_view(self.warnings@), "warning"@, "Warning"@)[i - 1]
                    == spec_text_section(seq!["warning"@], "Warning"@, self.warnings@[i - 1]@));
                assert(spec_note_sections(strs_view(self.warnings@), "warning"@, "Warning"@).take(
                    i as int,
                ) =~= spec_note_sections(
                    strs_view(self.warnings@),
                    "warning"@,
                    "Warning"@,
                ).take(i - 1).push(
                    spec_text_section(seq!["warning"@], "Warning"@, self.warnings@[i - 1]@),
                ));
                assert(crate::html::html_models(e.children@) =~~= (before_warnings
                    + spec_note_sections(strs_view(self.warnings@), "warning"@, "Warning"@).take(
                    i - 1,
                )).push(spec_text_section(seq!["warning"@], "Warning"@, self.warnings@[i - 1]@)));
                assert(crate::html::html_models(e.children@) =~~= before_warnings
                    + spec_note_sections(strs_view(self.warnings@), "warning"@, "Warning"@).take(
                    i as int,
                ));
            }
        }
        proof {
            assert(spec_note_sections(strs_view(self.warnings@), "warning"@, "Warning"@).take(
                self.warnings@.len() as int,
            ) =~= spec_note_sections(strs_view(self.warnings@), "warning"@, "Warning"@));
        }
        let ghost before_examples = crate::html::html_models(e.children@);
        if include_examples {
            let mut i: usize = 0;
            while i < self.examples.len()
                invariant
                    i <= self.examples@.len(),
                    e.tag@ == "div"@,
                    crate::html::strs(e.classes@) == seq!["description"@],
                    crate::html::attrs_pairs(e.attributes@) == Seq::<
                        (Seq<char>, Seq<char>),
                    >::empty(),
                    crate::html::html_models(e.children@) == before_examples
                        + spec_example_blocks(examples_view(self.examples@)).take(i as int),
                decreases self.examples@.len() - i,
            {
                let ghost prev = e.children@;
                e = e.with_child(self.examples[i].to_html());
                i += 1;
                proof {
                    crate::html::lemma_html_models_index(prev);
                    crate::html::lemma_html_models_index(e.children@);
                    assert(spec_example_blocks(examples_view(self.examples@))[i - 1]
                        == spec_example_html(self.examples@[i - 1].data@));
                    assert(spec_example_blocks(examples_view(self.examples@)).take(i as int)
                        =~= spec_example_blocks(examples_view(self.examples@)).take(i - 1).push(
                        spec_example_html(self.examples@[i - 1].data@),
                    ));
                    assert(crate::html::html_models(e.children@) =~~= (before_examples
                        + spec_example_blocks(examples_view(self.examples@)).take(i - 1)).push(
                        spec_example_html(self.examples@[i - 1].data@),
                    ));
                    assert(crate::html::html_models(e.children@) =~~= before_examples
                        + spec_example_blocks(examples_view(self.examples@)).take(i as int));
                }
            }
            proof {
                assert(spec_example_blocks(examples_view(self.examples@)).take(
                    self.examples@.len() as int,
                ) =~= spec_example_blocks(examples_view(self.examples@)));
            }
        }
        let ghost ge = e;
        let mut pieces: Vec<crate::html::Html> = Vec::new();
        pieces.push(crate::html::Html::Element(e));
        let ghost gp = pieces@;
        let r = crate::html::Html::List(crate::html::HtmlList::new(pieces));
        proof {
            crate::html::lemma_html_models_index(gp);
            assert(crate::html::html_models(ge.children@) =~~= spec_doc_html(
                m,
                dm,
                include_examples,
            )->List_list[0]->Element_children);
            assert(crate::html::html_model(crate::html::Html::Element(ge)) =~~= spec_doc_html(
                m,
                dm,
                include_examples,
            )->List_list[0]);
            assert(crate::html::html_model(r) =~~= spec_doc_html(m, dm, include_examples));
        }
        r
    }
}

} // verus!
