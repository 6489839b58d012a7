//! Path completion over a directory snapshot.
//!
//! The current word is interpreted as a possibly partial path and split at
//! its last `/` into a root and a partial leaf. The caller lists the root
//! directory (see [`listing_root`]) and hands the entries in as a snapshot;
//! the completion keeps the entries whose name starts with the partial leaf
//! and renders each suggestion by appending the entry name to the root text
//! exactly as the user typed it. A word without a `/` refers to the current
//! directory and its suggestions are bare entry names.

use vstd::prelude::*;
use vstd::string::StrSliceExecFns;
use vstd::string::StringExecFns;

use crate::strings::str_starts_with;

verus! {

/// One entry of a directory listing: its leaf name and whether it is a
/// directory. Entries whose kind cannot be determined are presented with
/// `is_dir` false, which keeps them out of directory-only completion.
pub struct DirEntry {
    pub name: String,
    pub is_dir: bool,
}

impl View for DirEntry {
    type V = (Seq<char>, bool);

    open spec fn view(&self) -> (Seq<char>, bool) {
        (self.name@, self.is_dir)
    }
}

impl DeepView for DirEntry {
    type V = (Seq<char>, bool);

    open spec fn deep_view(&self) -> (Seq<char>, bool) {
        self@
    }
}

/// Index of the last `/` in `s`, or -1 if there is none.
pub open spec fn last_slash(s: Seq<char>) -> int
    decreases s.len(),
{
    if s.len() == 0 {
        -1
    } else if s.last() == '/' {
        s.len() - 1
    } else {
        last_slash(s.drop_last())
    }
}

/// The partial leaf being completed: everything after the last `/`, or the
/// whole word when it has no `/`.
pub open spec fn partial_leaf(w: Seq<char>) -> Seq<char> {
    w.skip(last_slash(w) + 1)
}

/// The directory whose entries complete `w`: the text before the last `/`,
/// or the current directory when `w` has no `/`.
pub open spec fn root_of(w: Seq<char>) -> Seq<char> {
    if last_slash(w) < 0 {
        "./"@
    } else {
        w.take(last_slash(w))
    }
}

/// How a surviving entry is rendered: the root text the user typed, slash
/// included, verbatim, followed by the entry name; or the bare name when the
/// word has no `/`.
pub open spec fn path_display(w: Seq<char>, name: Seq<char>) -> Seq<char> {
    if last_slash(w) < 0 {
        name
    } else {
        w.take(last_slash(w) + 1) + name
    }
}

/// Is this entry kept when completing `w`? Files survive only when
/// `include_files` is set; every entry must match the partial leaf prefix.
pub open spec fn keeps_entry(w: Seq<char>, e: (Seq<char>, bool), include_files: bool) -> bool {
    (include_files || e.1) && partial_leaf(w).is_prefix_of(e.0)
}

/// The ordered suggestions for word `w` over a snapshot of the root
/// directory's entries.
pub open spec fn spec_complete_paths(
    w: Seq<char>,
    entries: Seq<(Seq<char>, bool)>,
    include_files: bool,
) -> Seq<Seq<char>> {
    entries.filter(|e: (Seq<char>, bool)| keeps_entry(w, e, include_files)).map(
        |i: int, e: (Seq<char>, bool)| path_display(w, e.0),
    )
}

/// Every element a filter keeps is an element of the underlying sequence.
pub proof fn lemma_filter_subset<A>(s: Seq<A>, pred: spec_fn(A) -> bool)
    ensures
        forall|i: int|
            0 <= i < s.filter(pred).len() ==> s.contains(#[trigger] s.filter(pred)[i]),
    decreases s.len(),
{
    reveal(Seq::filter);
    if s.len() > 0 {
        lemma_filter_subset(s.drop_last(), pred);
        assert forall|i: int| 0 <= i < s.filter(pred).len() implies s.contains(
            #[trigger] s.filter(pred)[i],
        ) by {
            let sub = s.drop_last().filter(pred);
            if i < sub.len() {
                let j = choose|j: int| 0 <= j < s.drop_last().len() && s.drop_last()[j] == sub[i];
                assert(s[j] == sub[i]);
            } else {
                assert(s[s.len() - 1] == s.filter(pred)[i]);
            }
        }
    }
}

/// There is an entry in the snapshot that is kept when completing `w` (a
/// directory, or any entry when `include_files` is set; in either case one
/// matching the partial leaf prefix) and renders as the suggestion `s`.
pub open spec fn kept_entry_renders(
    w: Seq<char>,
    entries: Seq<(Seq<char>, bool)>,
    include_files: bool,
    s: Seq<char>,
) -> bool {
    exists|j: int|
        #![trigger entries[j]]
        0 <= j < entries.len() && keeps_entry(w, entries[j], include_files) && s == path_display(
            w,
            entries[j].0,
        )
}

/// Directory completion never returns a non-directory entry, file completion
/// may return both kinds, and both exclude entries that do not match the
/// partial leaf prefix: each suggestion is the rendering of some snapshot
/// entry that the mode keeps and that matches the prefix.
pub proof fn lemma_path_completion_from_kept_entries(
    w: Seq<char>,
    entries: Seq<(Seq<char>, bool)>,
    include_files: bool,
)
    ensures
        forall|i: int|
            0 <= i < spec_complete_paths(w, entries, include_files).len()
                ==> kept_entry_renders(
                w,
                entries,
                include_files,
                #[trigger] spec_complete_paths(w, entries, include_files)[i],
            ),
{
    let pred = |e: (Seq<char>, bool)| keeps_entry(w, e, include_files);
    let kept = entries.filter(pred);
    lemma_filter_subset(entries, pred);
    assert forall|i: int|
        0 <= i < spec_complete_paths(w, entries, include_files).len()
        implies kept_entry_renders(
        w,
        entries,
        include_files,
        #[trigger] spec_complete_paths(w, entries, include_files)[i],
    ) by {
        Seq::lemma_filter_pred(entries, pred, i);
        assert(entries.contains(kept[i]));
        let j = choose|j: int| 0 <= j < entries.len() && entries[j] == kept[i];
        assert(0 <= j < entries.len() && keeps_entry(w, entries[j], include_files)
            && spec_complete_paths(w, entries, include_files)[i] == path_display(
            w,
            entries[j].0,
        ));
    }
}

/// Index of the last `/` of `s`, as an executable search.
pub fn last_slash_index(s: &str) -> (r: Option<usize>)
    ensures
        match r {
            Some(i) => last_slash(s@) == i && i < s@.len(),
            None => last_slash(s@) == -1,
        },
{
    let n = s.unicode_len();
    let mut j: usize = n;
    proof {
        assert(s@.take(n as int) =~= s@);
    }
    loop
        invariant
            j <= n,
            n == s@.len(),
            last_slash(s@) == last_slash(s@.take(j as int)),
        ensures
            j <= n,
            n == s@.len(),
            last_slash(s@) == last_slash(s@.take(j as int)),
            j == 0 || s@[j - 1] == '/',
            j > 0 ==> last_slash(s@.take(j as int)) == j - 1,
        decreases j,
    {
        if j == 0 {
            break;
        }
        let ch = s.get_char(j - 1);
        proof {
            assert(s@.take(j as int).last() == s@[j - 1]);
            assert(s@.take(j as int).drop_last() =~= s@.take(j as int - 1));
        }
        if ch == '/' {
            break;
        }
        j -= 1;
    }
    if j == 0 {
        proof {
            assert(s@.take(0) =~= Seq::<char>::empty());
        }
        None
    } else {
        Some(j - 1)
    }
}

/// The directory the caller should enumerate to complete `word`, rendered as
/// the user typed it (`"./"` for a word without a `/`). The enumeration of
/// this directory, with per-entry names and directory flags, is the snapshot
/// the completion functions expect. A root that cannot be read simply yields
/// an empty snapshot.
pub fn listing_root(word: &str) -> (r: String)
    ensures
        r@ == root_of(word@),
{
    match last_slash_index(word) {
        Some(i) => word.substring_char(0, i).to_owned(),
        None => "./".to_owned(),
    }
}

/// Suggestions for `word` over a snapshot of its root directory: the entries
/// that match the partial leaf (directories only, unless `include_files` is
/// set), each rendered after the root text the user typed.
#[verifier::rlimit(50)]
pub fn complete_paths(word: &str, entries: &Vec<DirEntry>, include_files: bool) -> (r: Vec<
    String,
>)
    ensures
        r.deep_view() == spec_complete_paths(word@, entries.deep_view(), include_files),
{
    let n = word.unicode_len();
    let ls = last_slash_index(word);
    let partial: &str = match ls {
        Some(i) => word.substring_char(i + 1, n),
        None => word,
    };
    let prefix: &str = match ls {
        Some(i) => word.substring_char(0, i + 1),
        None => "",
    };
    proof {
        if last_slash(word@) < 0 {
            assert(partial@ =~= partial_leaf(word@));
            assert(prefix@ =~= Seq::<char>::empty()) by {
                reveal_strlit("");
            }
        } else {
            assert(partial@ =~= partial_leaf(word@));
        }
    }
    let ghost evs = entries.deep_view();
    let mut r: Vec<String> = Vec::new();
    let mut idx: usize = 0;
    proof {
        assert(evs.take(0) =~= Seq::<(Seq<char>, bool)>::empty());
        reveal(Seq::filter);
        assert(r.deep_view() =~= spec_complete_paths(word@, evs.take(0), include_files));
    }
    while idx < entries.len()
        invariant
            idx <= entries.len(),
            evs == entries.deep_view(),
            evs.len() == entries.len(),
            partial@ == partial_leaf(word@),
            last_slash(word@) < 0 ==> prefix@ == Seq::<char>::empty(),
            last_slash(word@) >= 0 ==> prefix@ == word@.take(last_slash(word@) + 1),
            r.deep_view() == spec_complete_paths(word@, evs.take(idx as int), include_files),
        decreases entries.len() - idx,
    {
        let e = &entries[idx];
        let keep = (include_files || e.is_dir) && str_starts_with(e.name.as_str(), partial);
        let ghost old_r = r.deep_view();
        if keep {
            let mut d: String = prefix.to_owned();
            d.append(e.name.as_str());
            proof {
                assert(d@ =~= path_display(word@, e.name@));
            }
            r.push(d);
        }
        proof {
            reveal(Seq::filter);
            let pred = |en: (Seq<char>, bool)| keeps_entry(word@, en, include_files);
            let upto = evs.take(idx as int);
            let next = evs.take(idx as int + 1);
            assert(next.drop_last() =~= upto);
            assert(next.last() == evs[idx as int]);
            assert(evs[idx as int] == (e.name@, e.is_dir));
            assert(pred(evs[idx as int]) == keep);
            if keep {
                assert(next.filter(pred) == upto.filter(pred).push(evs[idx as int]));
                assert(r.deep_view() =~= old_r.push(path_display(word@, e.name@)));
                assert(r.deep_view() =~= spec_complete_paths(word@, next, include_files));
            } else {
                assert(next.filter(pred) == upto.filter(pred));
                assert(r.deep_view() =~= spec_complete_paths(word@, next, include_files));
            }
        }
        idx += 1;
    }
    proof {
        assert(evs.take(entries.len() as int) =~= evs);
    }
    r
}

} // verus!
