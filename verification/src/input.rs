//! The completion input abstraction and the three completion strategies.
//!
//! A completion input presents a tokenized command line together with the
//! cursor's position inside it: the list of arguments, the index of the
//! argument under the cursor, and the character offset of the cursor within
//! that argument. From these the current word (the partial token left of the
//! cursor) and the previous word are derived, and the strategies filter a
//! candidate set or a directory snapshot by the current word.

use vstd::prelude::*;
use vstd::string::StrSliceExecFns;

use crate::paths::DirEntry;
use crate::paths::complete_paths;
use crate::paths::spec_complete_paths;
use crate::strings::str_starts_with;

verus! {

/// The cursor indices denote a position inside the argument list: the
/// argument index is in range and the character index lies within (or at the
/// end of) that argument.
pub open spec fn valid_cursor(args: Seq<Seq<char>>, ai: int, ci: int) -> bool {
    &&& 0 <= ai < args.len()
    &&& 0 <= ci <= args[ai].len()
}

/// The current word: the prefix of the cursor's argument that ends at the
/// cursor. Characters after the cursor are not part of it.
pub open spec fn spec_current_word(args: Seq<Seq<char>>, ai: int, ci: int) -> Seq<char> {
    args[ai].take(ci)
}

/// The ordered subsequence of `cands` whose elements start with `w`.
pub open spec fn spec_filter_prefix(cands: Seq<Seq<char>>, w: Seq<char>) -> Seq<Seq<char>> {
    cands.filter(|cand: Seq<char>| w.is_prefix_of(cand))
}

/// A source of completion requests: a tokenized line and a cursor position.
///
/// Implementations provide the three accessors and a proof that a well-formed
/// input places its cursor inside the argument list; the word accessors and
/// the completion strategies are provided on top of them.
pub trait CompletionInput: Sized {
    /// The arguments of the line, in order. Index 0 is the command name.
    spec fn line_args(&self) -> Seq<Seq<char>>;

    /// Index of the argument the cursor sits in.
    spec fn cursor_arg(&self) -> int;

    /// Character offset of the cursor from the start of that argument.
    spec fn cursor_char(&self) -> int;

    /// Well-formedness of the input.
    spec fn wf(&self) -> bool;

    /// A well-formed input always has a valid cursor position.
    proof fn lemma_wf(&self)
        requires
            self.wf(),
        ensures
            valid_cursor(self.line_args(), self.cursor_arg(), self.cursor_char()),
    ;

    fn args(&self) -> (r: Vec<String>)
        requires
            self.wf(),
        ensures
            r.deep_view() == self.line_args(),
    ;

    fn arg_index(&self) -> (r: usize)
        requires
            self.wf(),
        ensures
            r as int == self.cursor_arg(),
    ;

    fn char_index(&self) -> (r: usize)
        requires
            self.wf(),
        ensures
            r as int == self.cursor_char(),
    ;

    /// Returns the current word under the user's cursor.
    /// Does not include any characters after the cursor.
    fn current_word(&self) -> (r: String)
        requires
            self.wf(),
        ensures
            r@ == spec_current_word(self.line_args(), self.cursor_arg(), self.cursor_char()),
    {
        proof {
            self.lemma_wf();
        }
        let args = self.args();
        let ai = self.arg_index();
        let ci = self.char_index();
        proof {
            assert(args@[ai as int]@ == self.line_args()[ai as int]);
        }
        args[ai].as_str().substring_char(0, ci).to_owned()
    }

    /// Returns the word before the word under the user's cursor.
    fn previous_word(&self) -> (r: String)
        requires
            self.wf(),
            self.cursor_arg() >= 1,
        ensures
            r@ == self.line_args()[self.cursor_arg() - 1],
    {
        proof {
            self.lemma_wf();
        }
        let args = self.args();
        let ai = self.arg_index();
        proof {
            assert(args@[ai - 1]@ == self.line_args()[ai - 1]);
        }
        args[ai - 1].clone()
    }

    /// Given a list of subcommands, return the ones that match the current
    /// word, in their original order.
    fn complete_subcommand(&self, subcommands: Vec<&str>) -> (r: Vec<String>)
        requires
            self.wf(),
        ensures
            r.deep_view() == spec_filter_prefix(
                subcommands.deep_view(),
                spec_current_word(self.line_args(), self.cursor_arg(), self.cursor_char()),
            ),
    {
        let w = self.current_word();
        filter_by_prefix(subcommands, w.as_str())
    }

    /// Directory completions based on the current word, over a snapshot of
    /// the entries of the current word's root directory.
    fn complete_directory(&self, entries: &Vec<DirEntry>) -> (r: Vec<String>)
        requires
            self.wf(),
        ensures
            r.deep_view() == spec_complete_paths(
                spec_current_word(self.line_args(), self.cursor_arg(), self.cursor_char()),
                entries.deep_view(),
                false,
            ),
    {
        let w = self.current_word();
        complete_paths(w.as_str(), entries, false)
    }

    /// File completions based on the current word, over a snapshot of the
    /// entries of the current word's root directory. Also returns directories
    /// because the user may be entering a file within that directory.
    fn complete_file(&self, entries: &Vec<DirEntry>) -> (r: Vec<String>)
        requires
            self.wf(),
        ensures
            r.deep_view() == spec_complete_paths(
                spec_current_word(self.line_args(), self.cursor_arg(), self.cursor_char()),
                entries.deep_view(),
                true,
            ),
    {
        let w = self.current_word();
        complete_paths(w.as_str(), entries, true)
    }
}

/// The ordered subsequence of `subcommands` whose elements start with `w`.
pub fn filter_by_prefix(subcommands: Vec<&str>, w: &str) -> (r: Vec<String>)
    ensures
        r.deep_view() == spec_filter_prefix(subcommands.deep_view(), w@),
{
    let ghost cands = subcommands.deep_view();
    let mut r: Vec<String> = Vec::new();
    let mut i: usize = 0;
    proof {
        reveal(Seq::filter);
        assert(cands.take(0) =~= Seq::<Seq<char>>::empty());
        assert(r.deep_view() =~= spec_filter_prefix(cands.take(0), w@));
    }
    while i < subcommands.len()
        invariant
            i <= subcommands.len(),
            cands == subcommands.deep_view(),
            cands.len() == subcommands.len(),
            r.deep_view() == spec_filter_prefix(cands.take(i as int), w@),
        decreases subcommands.len() - i,
    {
        let cand = subcommands[i];
        let ghost old_r = r.deep_view();
        let keep = str_starts_with(cand, w);
        if keep {
            r.push(cand.to_owned());
        }
        proof {
            reveal(Seq::filter);
            let pred = |c: Seq<char>| w@.is_prefix_of(c);
            let upto = cands.take(i as int);
            let next = cands.take(i as int + 1);
            assert(next.drop_last() =~= upto);
            assert(next.last() == cands[i as int]);
            assert(cands[i as int] == cand@);
            if keep {
                assert(next.filter(pred) == upto.filter(pred).push(cand@));
                assert(r.deep_view() =~= old_r.push(cand@));
            } else {
                assert(next.filter(pred) == upto.filter(pred));
            }
        }
        i += 1;
    }
    proof {
        assert(cands.take(subcommands.len() as int) =~= cands);
    }
    r
}

/// Subcommand completion: the ordered subsequence of `subcommands` whose
/// elements start with the current word.
pub fn private_complete_subcommand<C: CompletionInput>(
    completion: &C,
    subcommands: Vec<&str>,
) -> (r: Vec<String>)
    requires
        completion.wf(),
    ensures
        r.deep_view() == spec_filter_prefix(
            subcommands.deep_view(),
            spec_current_word(
                completion.line_args(),
                completion.cursor_arg(),
                completion.cursor_char(),
            ),
        ),
{
    let w = completion.current_word();
    filter_by_prefix(subcommands, w.as_str())
}

/// Path completion for the current word: directory entries only, or files
/// and directories when `include_files` is set.
pub fn private_complete_directory<C: CompletionInput>(
    completion: &C,
    entries: &Vec<DirEntry>,
    include_files: bool,
) -> (r: Vec<String>)
    requires
        completion.wf(),
    ensures
        r.deep_view() == spec_complete_paths(
            spec_current_word(
                completion.line_args(),
                completion.cursor_arg(),
                completion.cursor_char(),
            ),
            entries.deep_view(),
            include_files,
        ),
{
    let w = completion.current_word();
    complete_paths(w.as_str(), entries, include_files)
}

/// The current word is always a prefix of the argument it sits in, and its
/// length is exactly the cursor's character index.
pub proof fn lemma_current_word_is_token_prefix<C: CompletionInput>(c: &C)
    requires
        c.wf(),
    ensures
        ({
            let w = spec_current_word(c.line_args(), c.cursor_arg(), c.cursor_char());
            &&& w.is_prefix_of(c.line_args()[c.cursor_arg()])
            &&& w.len() == c.cursor_char()
        }),
{
    c.lemma_wf();
    let tok = c.line_args()[c.cursor_arg()];
    let w = spec_current_word(c.line_args(), c.cursor_arg(), c.cursor_char());
    assert(w =~= tok.subrange(0, c.cursor_char()));
}

/// Prefix filtering with an empty current word returns the candidate set
/// unchanged, in its original order.
pub proof fn lemma_empty_word_keeps_all(cands: Seq<Seq<char>>)
    ensures
        spec_filter_prefix(cands, Seq::<char>::empty()) == cands,
    decreases cands.len(),
{
    reveal(Seq::filter);
    if cands.len() == 0 {
        assert(spec_filter_prefix(cands, Seq::<char>::empty()) =~= cands);
    } else {
        lemma_empty_word_keeps_all(cands.drop_last());
        assert(Seq::<char>::empty().is_prefix_of(cands.last())) by {
            assert(Seq::<char>::empty() =~= cands.last().subrange(0, 0));
        }
        assert(spec_filter_prefix(cands, Seq::<char>::empty()) =~= cands);
    }
}

/// Prefix filtering is sound and complete: every element of the result
/// starts with the current word, and every candidate that starts with the
/// current word appears in the result.
pub proof fn lemma_filter_prefix_exact(cands: Seq<Seq<char>>, w: Seq<char>)
    ensures
        forall|i: int|
            0 <= i < spec_filter_prefix(cands, w).len() ==> w.is_prefix_of(
                #[trigger] spec_filter_prefix(cands, w)[i],
            ),
        forall|i: int|
            0 <= i < cands.len() && w.is_prefix_of(#[trigger] cands[i])
                ==> spec_filter_prefix(cands, w).contains(cands[i]),
{
    let pred = |cand: Seq<char>| w.is_prefix_of(cand);
    assert forall|i: int|
        0 <= i < spec_filter_prefix(cands, w).len() implies w.is_prefix_of(
        #[trigger] spec_filter_prefix(cands, w)[i],
    ) by {
        Seq::lemma_filter_pred(cands, pred, i);
    }
    assert forall|i: int|
        0 <= i < cands.len() && w.is_prefix_of(#[trigger] cands[i]) implies spec_filter_prefix(
        cands,
        w,
    ).contains(cands[i]) by {
        Seq::lemma_filter_contains(cands, pred, i);
    }
}

} // verus!
