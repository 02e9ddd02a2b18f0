//! Compiler command lines recovered from the build system's compilation
//! database. The database itself is read and parsed by the surrounding
//! program; the argument-list surgery — response-file expansion, macro
//! fixes, extra include and working-directory flags, and dropping the
//! flags the analyzer cannot take — is decided here.

use vstd::prelude::*;

use crate::config::Config;
use crate::strings::chars_vec;
use crate::strings::push_char;
use crate::strings::string_from_chars;
use crate::url_path::segs_view;

verus! {

broadcast use vstd::std_specs::vec::axiom_vec_decreases_to_view, vstd::seq::axiom_seq_index_decreases;

/// One entry of the compilation database.
pub struct CompileCommand {
    pub directory: String,
    pub command: String,
    pub file: String,
}

/// The first index at or after `from` holding a space, or the length.
pub open spec fn first_space(s: Seq<char>, from: int) -> int
    decreases s.len() - from when 0 <= from <= s.len()
{
    if from >= s.len() {
        s.len() as int
    } else if s[from] == ' ' {
        from
    } else {
        first_space(s, from + 1)
    }
}

pub proof fn lemma_first_space_bounds(s: Seq<char>, from: int)
    requires
        0 <= from <= s.len(),
    ensures
        from <= first_space(s, from) <= s.len(),
    decreases s.len() - from,
{
    if from < s.len() && s[from] != ' ' {
        lemma_first_space_bounds(s, from + 1);
    }
}

/// The pieces of a character sequence split on spaces, starting at `from`;
/// an empty remainder yields one empty piece, as `str::split` does.
pub open spec fn split_space(s: Seq<char>, from: int) -> Seq<Seq<char>>
    decreases s.len() - from when 0 <= from <= s.len() via split_space_decreases
{
    let i = first_space(s, from);
    if i < s.len() {
        seq![s.subrange(from, i)] + split_space(s, i + 1)
    } else {
        seq![s.subrange(from, s.len() as int)]
    }
}

#[via_fn]
proof fn split_space_decreases(s: Seq<char>, from: int) {
    lemma_first_space_bounds(s, from);
}

/// Whether the sequence ends with the suffix.
pub open spec fn ends_with(s: Seq<char>, suffix: Seq<char>) -> bool {
    suffix.len() <= s.len() && s.subrange(s.len() - suffix.len(), s.len() as int) == suffix
}

/// The sequence with every `@` removed: response files are referenced as
/// `@name` but named on disk without the marker.
pub open spec fn strip_at(s: Seq<char>) -> Seq<char>
    decreases s.len(),
{
    if s.len() == 0 {
        Seq::empty()
    } else {
        strip_at(s.drop_last()) + (if s.last() == '@' {
            Seq::empty()
        } else {
            seq![s.last()]
        })
    }
}

/// The sequence with every occurrence of the pattern replaced, scanning
/// left to right.
pub open spec fn replace_all(s: Seq<char>, pat: Seq<char>, rep: Seq<char>) -> Seq<char>
    decreases s.len() when pat.len() > 0
{
    if s.len() < pat.len() {
        s
    } else if s.take(pat.len() as int) == pat {
        rep + replace_all(s.skip(pat.len() as int), pat, rep)
    } else {
        seq![s.first()] + replace_all(s.drop_first(), pat, rep)
    }
}

/// The first index at or after `i` of the pair whose key is the name, or
/// the length.
pub open spec fn find_rsp(pairs: Seq<(Seq<char>, Seq<char>)>, name: Seq<char>, i: int) -> int
    decreases pairs.len() - i when 0 <= i <= pairs.len()
{
    if i >= pairs.len() {
        pairs.len() as int
    } else if pairs[i].0 == name {
        i
    } else {
        find_rsp(pairs, name, i + 1)
    }
}

pub proof fn lemma_find_rsp_bounds(pairs: Seq<(Seq<char>, Seq<char>)>, name: Seq<char>, i: int)
    requires
        0 <= i <= pairs.len(),
    ensures
        i <= find_rsp(pairs, name, i) <= pairs.len(),
        find_rsp(pairs, name, i) < pairs.len() ==> pairs[find_rsp(pairs, name, i)].0 == name,
    decreases pairs.len() - i,
{
    if i < pairs.len() && pairs[i].0 != name {
        lemma_find_rsp_bounds(pairs, name, i + 1);
    }
}

/// What one raw token contributes to the argument list: a response-file
/// token expands to its file's space-split contents (nothing resolvable
/// fails the whole list), any other token has empty-string macro
/// definitions mended.
pub open spec fn spec_expand_token(
    tok: Seq<char>,
    rsp: Seq<(Seq<char>, Seq<char>)>,
) -> Option<Seq<Seq<char>>> {
    if ends_with(tok, ".rsp"@) {
        let name = strip_at(tok);
        let i = find_rsp(rsp, name, 0);
        if i < rsp.len() {
            Some(split_space(rsp[i].1, 0))
        } else {
            None
        }
    } else {
        Some(seq![replace_all(tok, "=\"\""@, "="@)])
    }
}

/// The expansion of the raw tokens from index `i` on, flattened; nothing
/// when any response file cannot be resolved.
pub open spec fn spec_expand_tokens(
    toks: Seq<Seq<char>>,
    rsp: Seq<(Seq<char>, Seq<char>)>,
    i: int,
) -> Option<Seq<Seq<char>>>
    decreases toks.len() - i when 0 <= i <= toks.len()
{
    if i >= toks.len() {
        Some(Seq::empty())
    } else {
        match spec_expand_token(toks[i], rsp) {
            None => None,
            Some(head) => match spec_expand_tokens(toks, rsp, i + 1) {
                None => None,
                Some(rest) => Some(head + rest),
            },
        }
    }
}

/// The arguments with every `-c` flag and its operand removed: passing the
/// compile-only flag on breaks the analyzer.
pub open spec fn spec_strip_compile_flag(args: Seq<Seq<char>>) -> Seq<Seq<char>>
    decreases args.len(),
{
    if args.len() == 0 {
        Seq::empty()
    } else if args.first() == "-c"@ {
        if args.len() >= 2 {
            spec_strip_compile_flag(args.skip(2))
        } else {
            Seq::empty()
        }
    } else {
        seq![args.first()] + spec_strip_compile_flag(args.drop_first())
    }
}

/// The views of a vector of argument strings.
pub open spec fn args_view(v: Seq<String>) -> Seq<Seq<char>> {
    Seq::new(v.len(), |i: int| v[i]@)
}

/// The views of a vector of response-file pairs.
pub open spec fn rsp_view(v: Seq<(String, String)>) -> Seq<(Seq<char>, Seq<char>)> {
    Seq::new(v.len(), |i: int| (v[i].0@, v[i].1@))
}

/// The whole argument list of a database entry: its command split on
/// spaces with the compiler's own name dropped, response files expanded
/// from the given contents, empty macro definitions mended, the input
/// directory added as an include root, the entry's directory as the
/// working directory, the configured extra arguments appended, and every
/// compile-only flag removed with its operand.
pub open spec fn spec_command_list(
    command: Seq<char>,
    directory: Seq<char>,
    rsp: Seq<(Seq<char>, Seq<char>)>,
    config: Config,
) -> Option<Seq<Seq<char>>> {
    let toks = split_space(command, 0);
    match spec_expand_tokens(toks.drop_first(), rsp, 0) {
        None => None,
        Some(expanded) => Some(
            spec_strip_compile_flag(
                expanded + seq![
                    "-I"@ + crate::url_path::join_segs(config.input_dir@),
                    "-working-directory="@ + directory,
                ] + args_view(config.compile_args@),
            ),
        ),
    }
}

impl CompileCommand {
    /// The argument list of this entry, as [`spec_command_list`] describes;
    /// the response files' contents arrive from the surrounding program,
    /// keyed by their reference token without its `@` marker. Nothing comes
    /// back exactly when a referenced response file is missing from them.
    pub fn get_command_list(&self, config: &Config, rsp_files: &Vec<(String, String)>) -> (r:
        Option<Vec<String>>)
        ensures
            (match (r, spec_command_list(
                self.command@,
                self.directory@,
                rsp_view(rsp_files@),
                *config,
            )) {
                (Some(ref v), Some(s)) => args_view(v@) == s,
                (None, None) => true,
                _ => false,
            }),
    {
        proof {
            reveal_strlit(".rsp");
            reveal_strlit("=\"\"");
            reveal_strlit("=");
            reveal_strlit("-I");
            reveal_strlit("-working-directory=");
            reveal_strlit("-c");
        }
        let ghost rv = rsp_view(rsp_files@);
        let chars = chars_vec(self.command.as_str());
        let toks = split_space_exec(&chars);
        let ghost tv = segs_view(toks@);
        let mut expanded: Vec<String> = Vec::new();
        let mut i: usize = 1;
        if toks.len() == 0 {
            proof {
                assert(split_space(self.command@, 0).len() > 0);
            }
        }
        proof {
            assert(tv.drop_first() =~= tv.skip(1));
            assert(args_view(expanded@) + Seq::<Seq<char>>::empty() =~= args_view(expanded@));
        }
        loop
            invariant_except_break
                1 <= i <= toks@.len(),
                tv == segs_view(toks@),
                tv.len() == toks@.len(),
                tv == split_space(self.command@, 0),
                rv == rsp_view(rsp_files@),
                (match spec_expand_tokens(tv.skip(1), rv, i - 1) {
                    None => spec_expand_tokens(tv.skip(1), rv, 0) is None,
                    Some(rest) => spec_expand_tokens(tv.skip(1), rv, 0) == Some(
                        args_view(expanded@) + rest,
                    ),
                }),
            ensures
                tv == split_space(self.command@, 0),
                (match spec_expand_tokens(tv.skip(1), rv, 0) {
                    None => false,
                    Some(all) => args_view(expanded@) == all,
                }),
            decreases toks@.len() - i,
        {
            if i >= toks.len() {
                proof {
                    assert(spec_expand_tokens(tv.skip(1), rv, i - 1) == Some(
                        Seq::<Seq<char>>::empty(),
                    ));
                    assert(args_view(expanded@) + Seq::<Seq<char>>::empty() =~= args_view(
                        expanded@,
                    ));
                }
                break;
            }
            let tok = &toks[i];
            proof {
                assert(tv.skip(1)[i - 1] == tv[i as int]);
                assert(tv[i as int] == toks@[i as int]@);
            }
            if ends_with_exec(tok.as_str(), ".rsp") {
                let name = strip_at_exec(tok.as_str());
                match lookup_rsp(rsp_files, &name) {
                    None => {
                        proof {
                            assert(spec_expand_token(tv.skip(1)[i - 1], rv) is None);
                            assert(spec_expand_tokens(tv.skip(1), rv, i - 1) is None);
                            assert(tv.drop_first() =~= tv.skip(1));
                            assert(spec_expand_tokens(tv.drop_first(), rv, 0) is None);
                        }
                        return None;
                    },
                    Some(contents) => {
                        let cchars = chars_vec(contents.as_str());
                        let mut pieces = split_space_exec(&cchars);
                        let ghost pre = args_view(expanded@);
                        let ghost piece_views = segs_view(pieces@);
                        append_strings(&mut expanded, pieces);
                        proof {
                            assert(args_view(expanded@) =~~= pre + piece_views);
                            assert(spec_expand_token(tv.skip(1)[i - 1], rv) == Some(
                                piece_views,
                            ));
                            assert((match spec_expand_tokens(tv.skip(1), rv, i as int) {
                                None => spec_expand_tokens(tv.skip(1), rv, 0) is None,
                                Some(rest) => spec_expand_tokens(tv.skip(1), rv, 0) == Some(
                                    args_view(expanded@) + rest,
                                ),
                            })) by {
                                match spec_expand_tokens(tv.skip(1), rv, i as int) {
                                    None => {},
                                    Some(rest) => {
                                        assert(pre + (piece_views + rest) =~= (pre
                                            + piece_views) + rest);
                                    },
                                }
                            }
                        }
                    },
                }
            } else {
                let mended = replace_empty_macro(tok.as_str());
                let ghost pre = args_view(expanded@);
                expanded.push(mended);
                proof {
                    assert(args_view(expanded@) =~~= pre + seq![
                        replace_all(tv.skip(1)[i - 1], "=\"\""@, "="@),
                    ]);
                    assert((match spec_expand_tokens(tv.skip(1), rv, i as int) {
                        None => spec_expand_tokens(tv.skip(1), rv, 0) is None,
                        Some(rest) => spec_expand_tokens(tv.skip(1), rv, 0) == Some(
                            args_view(expanded@) + rest,
                        ),
                    })) by {
                        match spec_expand_tokens(tv.skip(1), rv, i as int) {
                            None => {},
                            Some(rest) => {
                                assert(pre + (seq![
                                    replace_all(tv.skip(1)[i - 1], "=\"\""@, "="@),
                                ] + rest) =~= (pre + seq![
                                    replace_all(tv.skip(1)[i - 1], "=\"\""@, "="@),
                                ]) + rest);
                            },
                        }
                    }
                }
            }
            i += 1;
        }
        let mut inc_flag = String::new();
        inc_flag.append("-I");
        let input_raw = config.input_dir.to_raw_string();
        inc_flag.append(input_raw.as_str());
        expanded.push(inc_flag);
        let mut workdir = String::new();
        workdir.append("-working-directory=");
        workdir.append(self.directory.as_str());
        expanded.push(workdir);
        let mut k: usize = 0;
        let ghost with_flags = args_view(expanded@);
        while k < config.compile_args.len()
            invariant
                k <= config.compile_args@.len(),
                expanded@.len() == with_flags.len() + k,
                args_view(expanded@) == with_flags + args_view(config.compile_args@).take(
                    k as int,
                ),
            decreases config.compile_args@.len() - k,
        {
            let ghost prev = expanded@;
            expanded.push(config.compile_args[k].clone());
            k += 1;
            proof {
                assert(forall|x: int| 0 <= x < prev.len() ==> expanded@[x] == prev[x]);
                assert(forall|x: int|
                    0 <= x < prev.len() ==> #[trigger] args_view(expanded@)[x] == args_view(
                        prev,
                    )[x]);
                assert(args_view(expanded@)[prev.len() as int] == config.compile_args@[k - 1]@);
                assert(args_view(config.compile_args@).take(k as int) =~= args_view(
                    config.compile_args@,
                ).take(k - 1).push(config.compile_args@[k - 1]@));
                assert(args_view(expanded@) =~~= with_flags + args_view(
                    config.compile_args@,
                ).take(k as int));
            }
        }
        proof {
            assert(args_view(config.compile_args@).take(config.compile_args@.len() as int)
                =~= args_view(config.compile_args@));
            assert(args_view(expanded@) =~~= spec_expand_tokens(tv.skip(1), rv, 0)->0 + seq![
                "-I"@ + crate::url_path::join_segs(config.input_dir@),
                "-working-directory="@ + self.directory@,
            ] + args_view(config.compile_args@));
        }
        let r = strip_compile_flag(expanded, 0);
        proof {
            assert(args_view(expanded@).skip(0) =~= args_view(expanded@));
            assert(tv.drop_first() =~= tv.skip(1));
            assert(spec_command_list(
                self.command@,
                self.directory@,
                rv,
                *config,
            ) == Some(
                spec_strip_compile_flag(
                    spec_expand_tokens(tv.skip(1), rv, 0)->0 + seq![
                        "-I"@ + crate::url_path::join_segs(config.input_dir@),
                        "-working-directory="@ + self.directory@,
                    ] + args_view(config.compile_args@),
                ),
            ));
        }
        Some(r)
    }
}

/// The configured arguments of the database entry that compiles the
/// configured reference file, if one does: how a build infers its analysis
/// arguments.
pub fn cmake_compile_args_for(
    commands: &Vec<CompileCommand>,
    reference: &String,
    config: &Config,
    rsp_files: &Vec<(String, String)>,
) -> (r: Option<Vec<String>>)
    ensures
        (forall|k: int|
            0 <= k < commands@.len() ==> (#[trigger] commands@[k].file)@ != reference@) ==> r
            is None,
{
    let mut i: usize = 0;
    while i < commands.len()
        invariant
            i <= commands@.len(),
            forall|k: int| 0 <= k < i ==> (#[trigger] commands@[k].file)@ != reference@,
        decreases commands@.len() - i,
    {
        if crate::url_path::string_eq(&commands[i].file, reference) {
            return commands[i].get_command_list(config, rsp_files);
        }
        i += 1;
    }
    None
}

/// Whether the string ends with the suffix.
fn ends_with_exec(s: &str, suffix: &str) -> (r: bool)
    ensures
        r == ends_with(s@, suffix@),
{
    let n = s.unicode_len();
    let m = suffix.unicode_len();
    if m > n {
        return false;
    }
    let mut k: usize = 0;
    while k < m
        invariant
            k <= m <= n,
            n == s@.len(),
            m == suffix@.len(),
            s@.subrange(n - m, n as int).take(k as int) == suffix@.take(k as int),
        decreases m - k,
    {
        let c = s.get_char(n - m + k);
        let e = suffix.get_char(k);
        proof {
            assert(s@.subrange(n - m, n as int)[k as int] == s@[n - m + k]);
        }
        if c != e {
            proof {
                assert(s@.subrange(n - m, n as int)[k as int] != suffix@[k as int]);
            }
            return false;
        }
        proof {
            assert(s@.subrange(n - m, n as int).take(k + 1) =~= suffix@.take(k + 1));
        }
        k += 1;
    }
    proof {
        assert(s@.subrange(n - m, n as int).take(m as int) =~= s@.subrange(n - m, n as int));
        assert(suffix@.take(m as int) =~= suffix@);
    }
    true
}

/// The string with every `@` removed.
fn strip_at_exec(s: &str) -> (r: String)
    ensures
        r@ == strip_at(s@),
{
    let chars = chars_vec(s);
    let mut out: Vec<char> = Vec::new();
    let mut i: usize = 0;
    proof {
        assert(out@ =~= strip_at(chars@.take(0)));
    }
    while i < chars.len()
        invariant
            i <= chars@.len(),
            chars@ == s@,
            out@ == strip_at(chars@.take(i as int)),
        decreases chars@.len() - i,
    {
        let c = chars[i];
        if c != '@' {
            out.push(c);
        }
        i += 1;
        proof {
            assert(chars@.take(i as int).drop_last() =~= chars@.take(i - 1));
            assert(out@ =~= strip_at(chars@.take(i as int)));
        }
    }
    proof {
        assert(chars@.take(chars@.len() as int) =~= chars@);
    }
    string_from_chars(out.as_slice())
}

/// The string with every empty-string macro definition mended.
fn replace_empty_macro(s: &str) -> (r: String)
    ensures
        r@ == replace_all(s@, "=\"\""@, "="@),
{
    proof {
        reveal_strlit("=\"\"");
        reveal_strlit("=");
    }
    let chars = chars_vec(s);
    let out = replace_rec(&chars, 0);
    proof {
        assert(chars@.skip(0) =~= chars@);
    }
    string_from_chars(out.as_slice())
}

fn replace_rec(chars: &Vec<char>, i: usize) -> (r: Vec<char>)
    requires
        i <= chars@.len(),
    ensures
        r@ == replace_all(chars@.skip(i as int), "=\"\""@, "="@),
    decreases chars@.len() - i,
{
    proof {
        reveal_strlit("=\"\"");
        reveal_strlit("=");
        assert("=\"\""@.len() == 3);
        assert("="@.len() == 1);
    }
    let n = chars.len();
    if n - i < 3 {
        let out = tail_chars(chars, i);
        proof {
            assert(chars@.skip(i as int).len() < 3);
            assert(out@ =~= replace_all(chars@.skip(i as int), "=\"\""@, "="@));
        }
        return out;
    }
    let matched = chars[i] == '=' && chars[i + 1] == '"' && chars[i + 2] == '"';
    proof {
        assert(chars@.skip(i as int).take(3)[0] == chars@[i as int]);
        assert(chars@.skip(i as int).take(3)[1] == chars@[i + 1]);
        assert(chars@.skip(i as int).take(3)[2] == chars@[i + 2]);
        assert("=\"\""@[0] == '=' && "=\"\""@[1] == '"' && "=\"\""@[2] == '"');
        if matched {
            assert(chars@.skip(i as int).take(3) =~= "=\"\""@);
        } else {
            assert(chars@.skip(i as int).take(3) !~= "=\"\""@);
        }
    }
    if matched {
        let mut out: Vec<char> = Vec::new();
        out.push('=');
        let mut rest = replace_rec(chars, i + 3);
        out.append(&mut rest);
        proof {
            assert(chars@.skip(i as int).skip(3) =~= chars@.skip(i + 3));
            assert(out@ =~= replace_all(chars@.skip(i as int), "=\"\""@, "="@));
        }
        out
    } else {
        let mut out: Vec<char> = Vec::new();
        out.push(chars[i]);
        let mut rest = replace_rec(chars, i + 1);
        out.append(&mut rest);
        proof {
            assert(chars@.skip(i as int).first() == chars@[i as int]);
            assert(chars@.skip(i as int).drop_first() =~= chars@.skip(i + 1));
            assert(out@ =~= replace_all(chars@.skip(i as int), "=\"\""@, "="@));
        }
        out
    }
}

/// The characters from `i` to the end.
fn tail_chars(chars: &Vec<char>, i: usize) -> (r: Vec<char>)
    requires
        i <= chars@.len(),
    ensures
        r@ == chars@.skip(i as int),
{
    let mut out: Vec<char> = Vec::new();
    let mut k = i;
    while k < chars.len()
        invariant
            i <= k <= chars@.len(),
            out@ == chars@.subrange(i as int, k as int),
        decreases chars@.len() - k,
    {
        out.push(chars[k]);
        k += 1;
        proof {
            assert(out@ =~= chars@.subrange(i as int, k as int));
        }
    }
    proof {
        assert(out@ =~= chars@.skip(i as int));
    }
    out
}

/// The first response-file entry with the name.
fn lookup_rsp(pairs: &Vec<(String, String)>, name: &String) -> (r: Option<String>)
    ensures
        ({
            let i = find_rsp(rsp_view(pairs@), name@, 0);
            if i < pairs@.len() {
                r is Some && r->0@ == rsp_view(pairs@)[i].1
            } else {
                r is None
            }
        }),
{
    let ghost pv = rsp_view(pairs@);
    let mut i: usize = 0;
    while i < pairs.len()
        invariant
            i <= pairs@.len(),
            pv == rsp_view(pairs@),
            pv.len() == pairs@.len(),
            find_rsp(pv, name@, 0) == find_rsp(pv, name@, i as int),
        decreases pairs@.len() - i,
    {
        if crate::url_path::string_eq(&pairs[i].0, name) {
            proof {
                assert(pv[i as int].0 == name@);
            }
            return Some(pairs[i].1.clone());
        }
        proof {
            assert(pv[i as int].0 != name@);
        }
        i += 1;
    }
    None
}

/// The pieces of the character sequence split on spaces.
fn split_space_exec(chars: &Vec<char>) -> (r: Vec<String>)
    ensures
        segs_view(r@) == split_space(chars@, 0),
{
    let mut out: Vec<String> = Vec::new();
    let mut from: usize = 0;
    proof {
        assert(segs_view(out@) + split_space(chars@, 0) =~= split_space(chars@, 0));
    }
    loop
        invariant_except_break
            from <= chars@.len(),
            split_space(chars@, 0) == segs_view(out@) + split_space(chars@, from as int),
        ensures
            segs_view(out@) == split_space(chars@, 0),
        decreases chars@.len() - from,
    {
        let i = find_space(chars, from);
        proof {
            lemma_first_space_bounds(chars@, from as int);
        }
        let seg = range_string(chars, from, i);
        let ghost preview = segs_view(out@);
        out.push(seg);
        if i < chars.len() {
            proof {
                assert(split_space(chars@, from as int) =~= seq![
                    chars@.subrange(from as int, i as int),
                ] + split_space(chars@, i + 1));
                assert(segs_view(out@) =~~= preview.push(
                    chars@.subrange(from as int, i as int),
                ));
                assert(split_space(chars@, 0) =~= segs_view(out@) + split_space(chars@, i + 1));
            }
            from = i + 1;
        } else {
            proof {
                assert(split_space(chars@, from as int) =~= seq![
                    chars@.subrange(from as int, chars@.len() as int),
                ]);
                assert(segs_view(out@) =~~= preview.push(
                    chars@.subrange(from as int, chars@.len() as int),
                ));
                assert(segs_view(out@) =~= split_space(chars@, 0));
            }
            break;
        }
    }
    out
}

/// The first index at or after `from` holding a space.
fn find_space(chars: &Vec<char>, from: usize) -> (r: usize)
    requires
        from <= chars@.len(),
    ensures
        r == first_space(chars@, from as int),
{
    let mut j = from;
    while j < chars.len()
        invariant
            from <= j <= chars@.len(),
            first_space(chars@, from as int) == first_space(chars@, j as int),
        decreases chars@.len() - j,
    {
        if chars[j] == ' ' {
            return j;
        }
        j += 1;
    }
    j
}

/// The string holding the characters from `from` up to `to`.
fn range_string(chars: &Vec<char>, from: usize, to: usize) -> (r: String)
    requires
        from <= to <= chars@.len(),
    ensures
        r@ == chars@.subrange(from as int, to as int),
{
    let mut out: Vec<char> = Vec::new();
    let mut k = from;
    while k < to
        invariant
            from <= k <= to <= chars@.len(),
            out@ == chars@.subrange(from as int, k as int),
        decreases to - k,
    {
        out.push(chars[k]);
        k += 1;
        proof {
            assert(out@ =~= chars@.subrange(from as int, k as int));
        }
    }
    string_from_chars(out.as_slice())
}

/// Appends every string of the second vector to the first.
fn append_strings(dst: &mut Vec<String>, src: Vec<String>)
    ensures
        final(dst)@ == old(dst)@ + src@,
{
    let mut src = src;
    let ghost target = old(dst)@ + src@;
    while src.len() > 0
        invariant
            dst@ + src@ == target,
        decreases src@.len(),
    {
        let x = src.remove(0);
        let ghost gx = x;
        dst.push(x);
        proof {
            assert(dst@ + src@ =~= target) by {
                assert(dst@.drop_last().push(gx) + src@ =~= dst@.drop_last() + (seq![gx]
                    + src@));
                assert(seq![gx] + src@ =~= src@.insert(0, gx));
            }
        }
    }
    proof {
        assert(dst@ =~= dst@ + src@);
        assert(dst@ =~= target);
    }
}

/// The arguments from index `i` on with every `-c` flag and its operand
/// removed.
fn strip_compile_flag(args: Vec<String>, i: usize) -> (r: Vec<String>)
    requires
        i <= args@.len(),
    ensures
        args_view(r@) == spec_strip_compile_flag(args_view(args@).skip(i as int)),
    decreases args@.len() - i,
{
    proof {
        reveal_strlit("-c");
        assert("-c"@.len() == 2);
    }
    let ghost av = args_view(args@);
    if i >= args.len() {
        let r: Vec<String> = Vec::new();
        proof {
            assert(av.skip(i as int).len() == 0);
            assert(args_view(r@) =~= spec_strip_compile_flag(av.skip(i as int)));
        }
        return r;
    }
    proof {
        assert(av.skip(i as int).first() == av[i as int]);
    }
    let is_c = crate::linker::str_eq_str(args[i].as_str(), "-c");
    if is_c {
        if args.len() - i >= 2 {
            let rest = strip_compile_flag(args, i + 2);
            proof {
                assert(av.skip(i as int).skip(2) =~= av.skip(i + 2));
                assert(av.skip(i as int).len() >= 2);
            }
            rest
        } else {
            let r: Vec<String> = Vec::new();
            proof {
                assert(av.skip(i as int).len() < 2);
                assert(args_view(r@) =~= spec_strip_compile_flag(av.skip(i as int)));
            }
            r
        }
    } else {
        let head = args[i].clone();
        let mut rest = strip_compile_flag(args, i + 1);
        rest.insert(0, head);
        proof {
            assert(av.skip(i as int).drop_first() =~= av.skip(i + 1));
            assert(args_view(rest@) =~~= seq![av[i as int]] + spec_strip_compile_flag(
                av.skip(i + 1),
            ));
            assert(args_view(rest@) =~~= spec_strip_compile_flag(av.skip(i as int)));
        }
        rest
    }
}

} // verus!
