//! Completion for a cargo-style command line.
//!
//! Argument index 1 completes the subcommand name against a caller-supplied
//! candidate list (discovered by asking the tool itself, or a static
//! fallback). At later indices the previous word decides, per subcommand
//! flag grammar, whether the position starts a new flag or supplies the value
//! of a value-taking flag; value-taking flags are completed by their declared
//! kind (directory, file, fixed choices) or not at all.

use vstd::prelude::*;
use vstd::string::StrSliceExecFns;

use crate::input::CompletionInput;
use crate::input::spec_current_word;
use crate::input::spec_filter_prefix;
use crate::paths::DirEntry;
use crate::paths::spec_complete_paths;
use crate::strings::contains_str;
use crate::strings::str_eq;
use crate::strings::str_starts_with;
use crate::tokenize::split_char;
use crate::tokenize::split_line;

verus! {

/// Flags of the run subcommand that take no value.
pub open spec fn spec_run_unary() -> Seq<Seq<char>> {
    seq![
        "--release"@,
        "--all-features"@,
        "--no-default-features"@,
        "--verbose"@,
        "--quiet"@,
        "--frozen"@,
        "--locked"@,
        "--help"@,
    ]
}

/// Flags of the run subcommand whose next token is a value.
pub open spec fn spec_run_valued() -> Seq<Seq<char>> {
    seq![
        "--bin"@,
        "--example"@,
        "--package"@,
        "--jobs"@,
        "--features"@,
        "--target"@,
        "--target-dir"@,
        "--manifest-path"@,
        "--message-format"@,
        "--color"@,
    ]
}

/// Flags of the test subcommand that take no value.
pub open spec fn spec_test_unary() -> Seq<Seq<char>> {
    seq![
        "--lib"@,
        "--bins"@,
        "--examples"@,
        "--tests"@,
        "--benches"@,
        "--all-targets"@,
        "--doc"@,
        "--no-run"@,
        "--no-fail-fast"@,
        "--all"@,
        "--release"@,
        "--all-features"@,
        "--no-default-features"@,
        "--verbose"@,
        "--quiet"@,
        "--frozen"@,
        "--locked"@,
        "--help"@,
    ]
}

/// Flags of the test subcommand whose next token is a value.
pub open spec fn spec_test_valued() -> Seq<Seq<char>> {
    seq![
        "--bin"@,
        "--example"@,
        "--test"@,
        "--bench"@,
        "--package"@,
        "--exclude"@,
        "--jobs"@,
        "--features"@,
        "--target"@,
        "--target-dir"@,
        "--manifest-path"@,
        "--message-format"@,
        "--color"@,
    ]
}

/// The fixed values of the message-format flag, in display order.
pub open spec fn spec_message_format_values() -> Seq<Seq<char>> {
    seq!["human"@, "json"@, "short"@]
}

/// The fixed values of the color flag, in display order.
pub open spec fn spec_color_values() -> Seq<Seq<char>> {
    seq!["auto"@, "always"@, "never"@]
}

/// The position after `prev` starts a new flag (rather than supplying a
/// value): the previous word is the subcommand itself, is no flag at all, or
/// is a flag that takes no value.
pub open spec fn spec_starts_new_flag(
    sub: Seq<char>,
    unary: Seq<Seq<char>>,
    prev: Seq<char>,
) -> bool {
    ||| prev == sub
    ||| !"-"@.is_prefix_of(prev)
    ||| unary.contains(prev)
}

/// Completion at a flag position of a subcommand with the given grammar:
/// either the full flag list filtered by the current word, or the value
/// completion declared for the previous word, or nothing.
pub open spec fn spec_complete_flags(
    sub: Seq<char>,
    unary: Seq<Seq<char>>,
    valued: Seq<Seq<char>>,
    args: Seq<Seq<char>>,
    ai: int,
    ci: int,
    entries: Seq<(Seq<char>, bool)>,
) -> Seq<Seq<char>> {
    let w = spec_current_word(args, ai, ci);
    let prev = args[ai - 1];
    if spec_starts_new_flag(sub, unary, prev) {
        spec_filter_prefix(unary + valued, w)
    } else if prev == "--target-dir"@ {
        spec_complete_paths(w, entries, false)
    } else if prev == "--manifest-path"@ {
        spec_complete_paths(w, entries, true)
    } else if prev == "--message-format"@ {
        spec_filter_prefix(spec_message_format_values(), w)
    } else if prev == "--color"@ {
        spec_filter_prefix(spec_color_values(), w)
    } else {
        Seq::empty()
    }
}

/// Top-level completion: the subcommand name at argument index 1, the run or
/// test flag grammar at later indices, and nothing for an unknown
/// subcommand.
pub open spec fn spec_complete(
    args: Seq<Seq<char>>,
    ai: int,
    ci: int,
    subs: Seq<Seq<char>>,
    entries: Seq<(Seq<char>, bool)>,
) -> Seq<Seq<char>> {
    if ai == 1 {
        spec_filter_prefix(subs, spec_current_word(args, ai, ci))
    } else if args[1] == "run"@ {
        spec_complete_flags("run"@, spec_run_unary(), spec_run_valued(), args, ai, ci, entries)
    } else if args[1] == "test"@ {
        spec_complete_flags("test"@, spec_test_unary(), spec_test_valued(), args, ai, ci, entries)
    } else {
        Seq::empty()
    }
}

/// Completion is a function of the line, the cursor and the snapshots alone:
/// re-running the same request over the same filesystem snapshot and the
/// same discovered subcommand set yields identical output.
pub proof fn lemma_complete_deterministic(
    args1: Seq<Seq<char>>,
    ai1: int,
    ci1: int,
    subs1: Seq<Seq<char>>,
    entries1: Seq<(Seq<char>, bool)>,
    args2: Seq<Seq<char>>,
    ai2: int,
    ci2: int,
    subs2: Seq<Seq<char>>,
    entries2: Seq<(Seq<char>, bool)>,
)
    requires
        args1 == args2,
        ai1 == ai2,
        ci1 == ci2,
        subs1 == subs2,
        entries1 == entries2,
    ensures
        spec_complete(args1, ai1, ci1, subs1, entries1) == spec_complete(
            args2,
            ai2,
            ci2,
            subs2,
            entries2,
        ),
{
}

fn run_unary_flags() -> (r: Vec<&'static str>)
    ensures
        r.deep_view() == spec_run_unary(),
{
    let mut v: Vec<&'static str> = Vec::new();
    v.push("--release");
    v.push("--all-features");
    v.push("--no-default-features");
    v.push("--verbose");
    v.push("--quiet");
    v.push("--frozen");
    v.push("--locked");
    v.push("--help");
    proof {
        assert(v.deep_view() =~= spec_run_unary());
    }
    v
}

fn run_valued_flags() -> (r: Vec<&'static str>)
    ensures
        r.deep_view() == spec_run_valued(),
{
    let mut v: Vec<&'static str> = Vec::new();
    v.push("--bin");
    v.push("--example");
    v.push("--package");
    v.push("--jobs");
    v.push("--features");
    v.push("--target");
    v.push("--target-dir");
    v.push("--manifest-path");
    v.push("--message-format");
    v.push("--color");
    proof {
        assert(v.deep_view() =~= spec_run_valued());
    }
    v
}

fn test_unary_flags() -> (r: Vec<&'static str>)
    ensures
        r.deep_view() == spec_test_unary(),
{
    let mut v: Vec<&'static str> = Vec::new();
    v.push("--lib");
    v.push("--bins");
    v.push("--examples");
    v.push("--tests");
    v.push("--benches");
    v.push("--all-targets");
    v.push("--doc");
    v.push("--no-run");
    v.push("--no-fail-fast");
    v.push("--all");
    v.push("--release");
    v.push("--all-features");
    v.push("--no-default-features");
    v.push("--verbose");
    v.push("--quiet");
    v.push("--frozen");
    v.push("--locked");
    v.push("--help");
    proof {
        assert(v.deep_view() =~= spec_test_unary());
    }
    v
}

fn test_valued_flags() -> (r: Vec<&'static str>)
    ensures
        r.deep_view() == spec_test_valued(),
{
    let mut v: Vec<&'static str> = Vec::new();
    v.push("--bin");
    v.push("--example");
    v.push("--test");
    v.push("--bench");
    v.push("--package");
    v.push("--exclude");
    v.push("--jobs");
    v.push("--features");
    v.push("--target");
    v.push("--target-dir");
    v.push("--manifest-path");
    v.push("--message-format");
    v.push("--color");
    proof {
        assert(v.deep_view() =~= spec_test_valued());
    }
    v
}

fn message_format_values() -> (r: Vec<&'static str>)
    ensures
        r.deep_view() == spec_message_format_values(),
{
    let mut v: Vec<&'static str> = Vec::new();
    v.push("human");
    v.push("json");
    v.push("short");
    proof {
        assert(v.deep_view() =~= spec_message_format_values());
    }
    v
}

fn color_values() -> (r: Vec<&'static str>)
    ensures
        r.deep_view() == spec_color_values(),
{
    let mut v: Vec<&'static str> = Vec::new();
    v.push("auto");
    v.push("always");
    v.push("never");
    proof {
        assert(v.deep_view() =~= spec_color_values());
    }
    v
}

/// Borrow every element of a string vector.
fn str_refs<'a>(v: &'a Vec<String>) -> (r: Vec<&'a str>)
    ensures
        r.deep_view() == v.deep_view(),
{
    let mut r: Vec<&'a str> = Vec::new();
    let mut i: usize = 0;
    proof {
        assert(r.deep_view() =~= v.deep_view().take(0));
    }
    while i < v.len()
        invariant
            i <= v.len(),
            v.deep_view().len() == v.len(),
            r.deep_view() == v.deep_view().take(i as int),
        decreases v.len() - i,
    {
        let ghost old_dv = r.deep_view();
        proof {
            assert(old_dv.len() == i);
            assert(r@.len() == i);
        }
        r.push(v[i].as_str());
        proof {
            assert(r@.len() == i + 1);
            assert forall|k: int| 0 <= k <= i implies r.deep_view()[k] == v.deep_view().take(
                i as int + 1,
            )[k] by {
                if k < i {
                    assert(r.deep_view()[k] == old_dv[k]);
                } else {
                    assert(r@[k]@ == v@[i as int]@);
                }
            }
            assert(r.deep_view() =~= v.deep_view().take(i as int + 1));
        }
        i += 1;
    }
    proof {
        assert(v.deep_view().take(v.len() as int) =~= v.deep_view());
    }
    r
}

/// Flag-position completion shared by every subcommand grammar: the previous
/// word either starts a new flag, in which case the whole flag list is
/// filtered by the current word, or names a value-taking flag, which is
/// completed by its declared value kind, or nothing is suggested.
fn complete_flags<C: CompletionInput>(
    input: &C,
    entries: &Vec<DirEntry>,
    subcommand: &str,
    unary: Vec<&str>,
    valued: Vec<&str>,
) -> (r: Vec<String>)
    requires
        input.wf(),
        input.cursor_arg() >= 2,
    ensures
        r.deep_view() == spec_complete_flags(
            subcommand@,
            unary.deep_view(),
            valued.deep_view(),
            input.line_args(),
            input.cursor_arg(),
            input.cursor_char(),
            entries.deep_view(),
        ),
{
    let ghost unary_dv = unary.deep_view();
    let ghost valued_dv = valued.deep_view();
    let prev = input.previous_word();
    let starts_new = str_eq(prev.as_str(), subcommand) || !str_starts_with(prev.as_str(), "-")
        || contains_str(&unary, prev.as_str());
    if starts_new {
        let mut all = unary;
        let mut rest = valued;
        all.append(&mut rest);
        proof {
            assert(all.deep_view() =~= unary_dv + valued_dv);
        }
        input.complete_subcommand(all)
    } else if str_eq(prev.as_str(), "--target-dir") {
        input.complete_directory(entries)
    } else if str_eq(prev.as_str(), "--manifest-path") {
        input.complete_file(entries)
    } else if str_eq(prev.as_str(), "--message-format") {
        input.complete_subcommand(message_format_values())
    } else if str_eq(prev.as_str(), "--color") {
        input.complete_subcommand(color_values())
    } else {
        let r: Vec<String> = Vec::new();
        proof {
            assert(r.deep_view() =~= Seq::<Seq<char>>::empty());
        }
        r
    }
}

/// Flag completion for the run subcommand.
pub fn complete_run<C: CompletionInput>(input: &C, entries: &Vec<DirEntry>) -> (r: Vec<String>)
    requires
        input.wf(),
        input.cursor_arg() >= 2,
    ensures
        r.deep_view() == spec_complete_flags(
            "run"@,
            spec_run_unary(),
            spec_run_valued(),
            input.line_args(),
            input.cursor_arg(),
            input.cursor_char(),
            entries.deep_view(),
        ),
{
    complete_flags(input, entries, "run", run_unary_flags(), run_valued_flags())
}

/// Flag completion for the test subcommand.
pub fn complete_test<C: CompletionInput>(input: &C, entries: &Vec<DirEntry>) -> (r: Vec<String>)
    requires
        input.wf(),
        input.cursor_arg() >= 2,
    ensures
        r.deep_view() == spec_complete_flags(
            "test"@,
            spec_test_unary(),
            spec_test_valued(),
            input.line_args(),
            input.cursor_arg(),
            input.cursor_char(),
            entries.deep_view(),
        ),
{
    complete_flags(input, entries, "test", test_unary_flags(), test_valued_flags())
}

/// Top-level completion for a cargo-style line. The caller supplies the
/// discovered subcommand names (or a static fallback) and a snapshot of the
/// entries of the current word's root directory; argument index 0 is the
/// command name itself, which is never completed.
pub fn complete<C: CompletionInput>(
    input: &C,
    subcommands: &Vec<String>,
    entries: &Vec<DirEntry>,
) -> (r: Vec<String>)
    requires
        input.wf(),
        input.cursor_arg() >= 1,
    ensures
        r.deep_view() == spec_complete(
            input.line_args(),
            input.cursor_arg(),
            input.cursor_char(),
            subcommands.deep_view(),
            entries.deep_view(),
        ),
{
    let ai = input.arg_index();
    if ai == 1 {
        input.complete_subcommand(str_refs(subcommands))
    } else {
        proof {
            input.lemma_wf();
        }
        let args = input.args();
        proof {
            assert(args@[1]@ == input.line_args()[1]);
        }
        if str_eq(args[1].as_str(), "run") {
            complete_run(input, entries)
        } else if str_eq(args[1].as_str(), "test") {
            complete_test(input, entries)
        } else {
            let r: Vec<String> = Vec::new();
            proof {
                assert(r.deep_view() =~= Seq::<Seq<char>>::empty());
            }
            r
        }
    }
}

/// A character that separates or pads columns in a subcommand listing.
pub open spec fn is_listing_blank(c: char) -> bool {
    c == ' ' || c == '\t' || c == '\r'
}

/// `l` without its leading blanks.
pub open spec fn skip_blanks(l: Seq<char>) -> Seq<char>
    decreases l.len(),
{
    if l.len() > 0 && is_listing_blank(l[0]) {
        skip_blanks(l.drop_first())
    } else {
        l
    }
}

/// The longest blank-free prefix of `l`.
pub open spec fn take_until_blank(l: Seq<char>) -> Seq<char>
    decreases l.len(),
{
    if l.len() == 0 || is_listing_blank(l[0]) {
        Seq::empty()
    } else {
        seq![l[0]] + take_until_blank(l.drop_first())
    }
}

/// The first blank-delimited token of a listing line (empty for a blank
/// line).
pub open spec fn first_token(l: Seq<char>) -> Seq<char> {
    take_until_blank(skip_blanks(l))
}

/// The subcommand names of a listing: every line after the first (a header)
/// contributes its first token; blank lines contribute nothing.
pub open spec fn spec_parse_listing(s: Seq<char>) -> Seq<Seq<char>> {
    split_char(s, '\n').skip(1).map(|i: int, l: Seq<char>| first_token(l)).filter(
        |t: Seq<char>| t.len() > 0,
    )
}

fn is_blank_char(c: char) -> (r: bool)
    ensures
        r == is_listing_blank(c),
{
    c == ' ' || c == '\t' || c == '\r'
}

/// The first blank-delimited token of one listing line.
fn first_token_of(l: &str) -> (r: String)
    ensures
        r@ == first_token(l@),
{
    let n = l.unicode_len();
    let mut j: usize = 0;
    proof {
        assert(l@.skip(0) =~= l@);
    }
    loop
        invariant
            j <= n,
            n == l@.len(),
            skip_blanks(l@) == skip_blanks(l@.skip(j as int)),
        ensures
            j <= n,
            n == l@.len(),
            skip_blanks(l@) == l@.skip(j as int),
        decreases n - j,
    {
        if j == n {
            proof {
                assert(l@.skip(n as int) =~= Seq::<char>::empty());
            }
            break;
        }
        proof {
            assert(l@.skip(j as int)[0] == l@[j as int]);
        }
        if !is_blank_char(l.get_char(j)) {
            break;
        }
        proof {
            assert(l@.skip(j as int).drop_first() =~= l@.skip(j as int + 1));
        }
        j += 1;
    }
    let start = j;
    proof {
        assert(l@.subrange(start as int, start as int) + take_until_blank(l@.skip(start as int))
            =~= take_until_blank(l@.skip(start as int)));
    }
    loop
        invariant
            start <= j <= n,
            n == l@.len(),
            take_until_blank(l@.skip(start as int)) == l@.subrange(start as int, j as int)
                + take_until_blank(l@.skip(j as int)),
        ensures
            start <= j <= n,
            n == l@.len(),
            take_until_blank(l@.skip(start as int)) == l@.subrange(start as int, j as int),
        decreases n - j,
    {
        if j == n {
            proof {
                assert(l@.skip(n as int) =~= Seq::<char>::empty());
                assert(l@.subrange(start as int, n as int) + Seq::<char>::empty() =~= l@.subrange(
                    start as int,
                    n as int,
                ));
            }
            break;
        }
        proof {
            assert(l@.skip(j as int)[0] == l@[j as int]);
        }
        if is_blank_char(l.get_char(j)) {
            proof {
                assert(l@.subrange(start as int, j as int) + Seq::<char>::empty() =~= l@.subrange(
                    start as int,
                    j as int,
                ));
            }
            break;
        }
        proof {
            assert(l@.skip(j as int).drop_first() =~= l@.skip(j as int + 1));
            assert(l@.subrange(start as int, j as int) + (seq![l@[j as int]] + take_until_blank(
                l@.skip(j as int + 1),
            )) =~= l@.subrange(start as int, j as int + 1) + take_until_blank(
                l@.skip(j as int + 1),
            ));
        }
        j += 1;
    }
    l.substring_char(start, j).to_owned()
}

/// Parse a subcommand listing: skip the first line (a header), take the
/// first blank-delimited token of every further line, and drop blank lines.
pub fn parse_subcommand_listing(listing: &str) -> (r: Vec<String>)
    ensures
        r.deep_view() == spec_parse_listing(listing@),
{
    let lines = split_line(listing, '\n');
    let ghost ls = lines.deep_view().skip(1);
    let ghost ftok = |i: int, l: Seq<char>| first_token(l);
    let ghost nonempty = |t: Seq<char>| t.len() > 0;
    let mut r: Vec<String> = Vec::new();
    let mut i: usize = 1;
    proof {
        reveal(Seq::filter);
        assert(ls.take(0) =~= Seq::<Seq<char>>::empty());
        assert(ls.take(0).map(ftok) =~= Seq::<Seq<char>>::empty());
        assert(r.deep_view() =~= ls.take(0).map(ftok).filter(nonempty));
    }
    while i < lines.len()
        invariant
            1 <= i,
            i <= lines.len() || i == 1,
            ls == lines.deep_view().skip(1),
            ls.len() == lines.deep_view().len() - 1 || (lines.deep_view().len() == 0 && ls.len()
                == 0),
            lines.deep_view().len() == lines.len(),
            ftok == (|k: int, l: Seq<char>| first_token(l)),
            nonempty == (|t: Seq<char>| t.len() > 0),
            r.deep_view() == ls.take(i - 1).map(ftok).filter(nonempty),
        decreases lines.len() - i,
    {
        let tok = first_token_of(lines[i].as_str());
        let ghost old_r = r.deep_view();
        let keep = tok.as_str().unicode_len() > 0;
        if keep {
            r.push(tok);
        }
        proof {
            reveal(Seq::filter);
            assert(lines.deep_view()[i as int] == ls[i - 1]);
            let upto = ls.take(i - 1).map(ftok);
            let next = ls.take(i as int).map(ftok);
            assert(next.drop_last() =~= upto);
            assert(next.last() == first_token(ls[i - 1]));
            if keep {
                assert(next.filter(nonempty) == upto.filter(nonempty).push(
                    first_token(ls[i - 1]),
                ));
                assert(r.deep_view() =~= old_r.push(tok@));
            } else {
                assert(next.filter(nonempty) == upto.filter(nonempty));
            }
        }
        i += 1;
    }
    proof {
        if lines.deep_view().len() == 0 {
            assert(false);
        }
        assert(ls.take(lines.len() - 1) =~= ls);
        assert(spec_parse_listing(listing@) == ls.map(ftok).filter(nonempty));
    }
    r
}

/// Subcommand-name completion straight from a listing: the first tokens of
/// its lines after the header, filtered by the current word.
pub fn complete_cargo_commands<C: CompletionInput>(input: &C, listing: &str) -> (r: Vec<String>)
    requires
        input.wf(),
    ensures
        r.deep_view() == spec_filter_prefix(
            spec_parse_listing(listing@),
            spec_current_word(input.line_args(), input.cursor_arg(), input.cursor_char()),
        ),
{
    let subs = parse_subcommand_listing(listing);
    input.complete_subcommand(str_refs(&subs))
}

} // verus!

